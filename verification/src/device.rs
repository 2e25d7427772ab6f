//! The symbolic device model: devices, the catalog that holds them, and
//! addresses such as `D100` or `W1FFF`.

use std::collections::HashMap;
use vstd::prelude::*;
use vstd::string::*;
use crate::error::MelsecError;
use crate::plc_series::PLCSeries;
use crate::text::{
    ascii_upper, chars_of, is_ascii_letter, lemma_leading_spaces_is,
    lemma_trailing_spaces_is, owned, spec_ascii_upper, spec_is_ascii_letter, spec_is_whitespace,
    spec_trim, str_eq, trim_bounds,
};

verus! {

/// The category of a device: what one point of it holds.
#[derive(Debug, Clone, Copy, PartialEq, Eq, Hash, Structural)]
pub enum DeviceType {
    Bit,
    Word,
    DoubleWord,
}

/// The radix in which the numeric part of an address is written.
#[derive(Debug, Clone, Copy, PartialEq, Eq, Hash, Structural)]
pub enum NumberBase {
    Decimal,
    Hexadecimal,
}

/// The code of a device on the wire.
#[derive(Copy, Clone, Debug, PartialEq, Eq, Hash, Structural)]
pub struct DeviceCode(pub u8);

impl From<DeviceCode> for u8 {
    fn from(dc: DeviceCode) -> (r: u8) {
        dc.0
    }
}

impl vstd::std_specs::convert::FromSpecImpl<DeviceCode> for u8 {
    open spec fn obeys_from_spec() -> bool {
        true
    }

    open spec fn from_spec(dc: DeviceCode) -> u8 {
        dc.0
    }
}

/// A named region of controller memory.
#[derive(Debug, PartialEq, Eq)]
pub struct Device {
    pub symbol: String,
    pub category: DeviceType,
    pub base: NumberBase,
    pub device_code: DeviceCode,
    pub description: String,
    /// The controller families that have this device.
    pub supported_series: Vec<PLCSeries>,
}

/// The mathematical content of a `Device`.
pub struct DeviceView {
    pub symbol: Seq<char>,
    pub category: DeviceType,
    pub base: NumberBase,
    pub code: u8,
    pub description: Seq<char>,
    pub series: Seq<PLCSeries>,
}

impl View for Device {
    type V = DeviceView;

    open spec fn view(&self) -> DeviceView {
        DeviceView {
            symbol: self.symbol@,
            category: self.category,
            base: self.base,
            code: self.device_code.0,
            description: self.description@,
            series: self.supported_series@,
        }
    }
}

impl DeviceView {
    /// True if the symbol is one to three upper-case letters of ASCII and
    /// at least one family has the device.
    pub open spec fn valid(self) -> bool {
        &&& 1 <= self.symbol.len() <= 3
        &&& forall|k: int| 0 <= k < self.symbol.len() ==> 'A' <= #[trigger] self.symbol[k] <= 'Z'
        &&& self.series.len() > 0
    }
}

impl Device {
    pub fn symbol_str(&self) -> (r: &str)
        ensures
            r@ == self@.symbol,
    {
        self.symbol.as_str()
    }

    /// The device code as the Q family writes it: one byte.
    pub fn device_code_q(&self) -> (r: u8)
        ensures
            r == self@.code,
    {
        self.device_code.0
    }

    /// The device code as the R family writes it: two bytes.
    pub fn device_code_r(&self) -> (r: u16)
        ensures
            r == self@.code,
    {
        self.device_code.0 as u16
    }

    /// True if the given family has this device.
    pub fn supports(&self, series: PLCSeries) -> (r: bool)
        ensures
            r == self@.series.contains(series),
    {
        let mut i: usize = 0;
        while i < self.supported_series.len()
            invariant
                i <= self.supported_series.len(),
                forall|k: int| 0 <= k < i ==> self.supported_series@[k] != series,
            decreases self.supported_series.len() - i,
        {
            if self.supported_series[i] == series {
                return true;
            }
            i = i + 1;
        }
        false
    }

    /// A copy of the device.
    pub fn duplicate(&self) -> (r: Device)
        ensures
            r@ == self@,
    {
        let mut series: Vec<PLCSeries> = Vec::new();
        let mut i: usize = 0;
        while i < self.supported_series.len()
            invariant
                i <= self.supported_series.len(),
                series@ == self.supported_series@.subrange(0, i as int),
            decreases self.supported_series.len() - i,
        {
            series.push(self.supported_series[i]);
            assert(series@ =~= self.supported_series@.subrange(0, i + 1));
            i = i + 1;
        }
        assert(series@ =~= self.supported_series@);
        Device {
            symbol: self.symbol.clone(),
            category: self.category,
            base: self.base,
            device_code: self.device_code,
            description: self.description.clone(),
            supported_series: series,
        }
    }

    /// True if the device is valid as `DeviceView::valid` says.
    pub fn is_valid(&self) -> (r: bool)
        ensures
            r == self@.valid(),
    {
        let cs = crate::text::chars_of(self.symbol.as_str());
        if cs.len() < 1 || cs.len() > 3 || self.supported_series.len() == 0 {
            return false;
        }
        let mut i: usize = 0;
        while i < cs.len()
            invariant
                i <= cs.len(),
                cs@ == self@.symbol,
                forall|k: int| 0 <= k < i ==> 'A' <= #[trigger] cs@[k] <= 'Z',
            decreases cs.len() - i,
        {
            if !('A' <= cs[i] && cs[i] <= 'Z') {
                return false;
            }
            i = i + 1;
        }
        true
    }
}

/// The views of a list of devices.
pub open spec fn views(devices: Seq<Device>) -> Seq<DeviceView> {
    Seq::new(devices.len(), |i: int| devices[i]@)
}

/// True if no two devices of the list share a symbol or a code.
pub open spec fn unique(devices: Seq<DeviceView>) -> bool {
    forall|i: int, j: int|
        0 <= i < j < devices.len() ==> (#[trigger] devices[i]).symbol != (#[trigger] devices[j]).symbol
            && devices[i].code != devices[j].code
}

/// True if a list of devices can make a catalog: each device is valid, and
/// no two share a symbol or a code.
pub open spec fn well_formed(devices: Seq<DeviceView>) -> bool {
    &&& forall|i: int| 0 <= i < devices.len() ==> (#[trigger] devices[i]).valid()
    &&& unique(devices)
}

/// The place of the device with the given symbol, if there is one.
pub open spec fn index_of_symbol(devices: Seq<DeviceView>, symbol: Seq<char>) -> Option<int>
    decreases devices.len(),
{
    if devices.len() == 0 {
        None
    } else if devices[0].symbol == symbol {
        Some(0)
    } else {
        match index_of_symbol(devices.skip(1), symbol) {
            Some(i) => Some(i + 1),
            None => None,
        }
    }
}

/// The place of the device with the given code, if there is one.
pub open spec fn index_of_code(devices: Seq<DeviceView>, code: u8) -> Option<int>
    decreases devices.len(),
{
    if devices.len() == 0 {
        None
    } else if devices[0].code == code {
        Some(0)
    } else {
        match index_of_code(devices.skip(1), code) {
            Some(i) => Some(i + 1),
            None => None,
        }
    }
}

/// `index_of_symbol` finds the first device with the symbol, and nothing
/// where no device has it.
pub proof fn lemma_index_of_symbol(devices: Seq<DeviceView>, symbol: Seq<char>)
    ensures
        match index_of_symbol(devices, symbol) {
            Some(i) => 0 <= i < devices.len() && devices[i].symbol == symbol && forall|k: int|
                0 <= k < i ==> (#[trigger] devices[k]).symbol != symbol,
            None => forall|k: int| 0 <= k < devices.len() ==> (#[trigger] devices[k]).symbol != symbol,
        },
    decreases devices.len(),
{
    if devices.len() > 0 && devices[0].symbol != symbol {
        let t = devices.skip(1);
        lemma_index_of_symbol(t, symbol);
        match index_of_symbol(t, symbol) {
            Some(i) => {
                assert(devices[i + 1] == t[i]);
                assert forall|k: int| 0 <= k < i + 1 implies (#[trigger] devices[k]).symbol
                    != symbol by {
                    if k > 0 {
                        assert(devices[k] == t[k - 1]);
                    }
                }
            },
            None => {
                assert forall|k: int| 0 <= k < devices.len() implies (#[trigger] devices[k]).symbol
                    != symbol by {
                    if k > 0 {
                        assert(devices[k] == t[k - 1]);
                    }
                }
            },
        }
    }
}

/// `index_of_code` finds the first device with the code, and nothing where
/// no device has it.
pub proof fn lemma_index_of_code(devices: Seq<DeviceView>, code: u8)
    ensures
        match index_of_code(devices, code) {
            Some(i) => 0 <= i < devices.len() && devices[i].code == code && forall|k: int|
                0 <= k < i ==> (#[trigger] devices[k]).code != code,
            None => forall|k: int| 0 <= k < devices.len() ==> (#[trigger] devices[k]).code != code,
        },
    decreases devices.len(),
{
    if devices.len() > 0 && devices[0].code != code {
        let t = devices.skip(1);
        lemma_index_of_code(t, code);
        match index_of_code(t, code) {
            Some(i) => {
                assert(devices[i + 1] == t[i]);
                assert forall|k: int| 0 <= k < i + 1 implies (#[trigger] devices[k]).code
                    != code by {
                    if k > 0 {
                        assert(devices[k] == t[k - 1]);
                    }
                }
            },
            None => {
                assert forall|k: int| 0 <= k < devices.len() implies (#[trigger] devices[k]).code
                    != code by {
                    if k > 0 {
                        assert(devices[k] == t[k - 1]);
                    }
                }
            },
        }
    }
}

/// The number of keys that symbols of up to three letters have.
pub const SYMBOL_KEYS: usize = 19683;

/// True for a text of one to three upper-case letters of ASCII.
pub open spec fn symbol_shape(s: Seq<char>) -> bool {
    &&& 1 <= s.len() <= 3
    &&& forall|k: int| 0 <= k < s.len() ==> 'A' <= #[trigger] s[k] <= 'Z'
}

/// The place of a letter in the alphabet, from 1.
pub open spec fn letter_digit(c: char) -> int {
    c as int - 64
}

/// The key of a symbol: its letters as the digits of a number to the base
/// 27.
pub open spec fn symbol_key(s: Seq<char>) -> int {
    letter_digit(s[0]) * 729 + (if s.len() >= 2 {
        letter_digit(s[1]) * 27
    } else {
        0
    }) + (if s.len() >= 3 {
        letter_digit(s[2])
    } else {
        0
    })
}

/// Symbols have keys under `SYMBOL_KEYS`, and symbols with one key are
/// one symbol.
pub proof fn lemma_symbol_key(a: Seq<char>, b: Seq<char>)
    requires
        symbol_shape(a),
        symbol_shape(b),
    ensures
        0 <= symbol_key(a) < SYMBOL_KEYS,
        symbol_key(a) == symbol_key(b) ==> a == b,
{
    assert('A' <= a[0] <= 'Z');
    assert('A' <= b[0] <= 'Z');
    if a.len() >= 2 {
        assert('A' <= a[1] <= 'Z');
    }
    if a.len() >= 3 {
        assert('A' <= a[2] <= 'Z');
    }
    if b.len() >= 2 {
        assert('A' <= b[1] <= 'Z');
    }
    if b.len() >= 3 {
        assert('A' <= b[2] <= 'Z');
    }
    if symbol_key(a) == symbol_key(b) {
        assert(a.len() == b.len());
        assert(a[0] == b[0]);
        if a.len() >= 2 {
            assert(a[1] == b[1]);
        }
        if a.len() >= 3 {
            assert(a[2] == b[2]);
        }
        assert(a =~= b);
    }
}

/// True if the maps lead from the code and from the symbol key of every
/// device to its place, and hold nothing else.
pub open spec fn indexed(
    devices: Seq<DeviceView>,
    by_code: Map<u8, usize>,
    by_symbol: Map<usize, usize>,
) -> bool {
    &&& forall|i: int|
        0 <= i < devices.len() ==> {
            &&& by_code.contains_key((#[trigger] devices[i]).code)
            &&& by_code[devices[i].code] == i
            &&& by_symbol.contains_key(symbol_key(devices[i].symbol) as usize)
            &&& by_symbol[symbol_key(devices[i].symbol) as usize] == i
        }
    &&& forall|c: u8| #[trigger]
        by_code.contains_key(c) ==> by_code[c] < devices.len() && devices[by_code[c] as int].code
            == c
    &&& forall|k: usize| #[trigger]
        by_symbol.contains_key(k) ==> by_symbol[k] < devices.len() && symbol_key(
            devices[by_symbol[k] as int].symbol,
        ) == k
}

/// A set of devices in which symbols and codes are unique. A device is
/// found by its code and by its symbol in one step.
#[derive(Debug)]
pub struct DeviceCatalog {
    devices: Vec<Device>,
    by_code: HashMap<u8, usize>,
    by_symbol: HashMap<usize, usize>,
}

impl View for DeviceCatalog {
    type V = Seq<DeviceView>;

    closed spec fn view(&self) -> Seq<DeviceView> {
        views(self.devices@)
    }
}

/// The key of a symbol, if the text is one.
fn key_of(cs: &Vec<char>) -> (r: Option<usize>)
    ensures
        match r {
            Some(k) => symbol_shape(cs@) && k == symbol_key(cs@),
            None => !symbol_shape(cs@),
        },
{
    let n = cs.len();
    if n < 1 || n > 3 {
        return None;
    }
    let mut key: usize = 0;
    let mut i: usize = 0;
    while i < 3
        invariant
            i <= 3,
            1 <= n <= 3,
            n == cs.len(),
            forall|k: int| 0 <= k < i && k < n ==> 'A' <= #[trigger] cs@[k] <= 'Z',
            key == (if i == 0 {
                0
            } else if i == 1 {
                letter_digit(cs@[0])
            } else if i == 2 {
                letter_digit(cs@[0]) * 27 + (if n >= 2 {
                    letter_digit(cs@[1])
                } else {
                    0
                })
            } else {
                symbol_key(cs@)
            }),
        decreases 3 - i,
    {
        let digit: usize = if i < n {
            let c = cs[i];
            if !('A' <= c && c <= 'Z') {
                return None;
            }
            (c as usize) - 64
        } else {
            0
        };
        key = key * 27 + digit;
        i = i + 1;
    }
    Some(key)
}

impl DeviceCatalog {
    #[verifier::type_invariant]
    spec fn inv(self) -> bool {
        &&& well_formed(views(self.devices@))
        &&& indexed(views(self.devices@), self.by_code@, self.by_symbol@)
    }

    /// Builds the two indexes for devices that can make a catalog.
    fn index(devices: Vec<Device>) -> (r: DeviceCatalog)
        requires
            well_formed(views(devices@)),
        ensures
            r@ == views(devices@),
    {
        let ghost vs = views(devices@);
        let mut by_code: HashMap<u8, usize> = HashMap::new();
        let mut by_symbol: HashMap<usize, usize> = HashMap::new();
        let mut i: usize = 0;
        while i < devices.len()
            invariant
                i <= devices.len(),
                vs == views(devices@),
                well_formed(vs),
                indexed(vs.take(i as int), by_code@, by_symbol@),
            decreases devices.len() - i,
        {
            let cs = chars_of(devices[i].symbol.as_str());
            assert(vs[i as int].valid());
            assert(cs@ == vs[i as int].symbol);
            let code = devices[i].device_code.0;
            let ghost before = vs.take(i as int);
            let ghost codes = by_code@;
            let ghost symbols = by_symbol@;
            proof {
                lemma_symbol_key(vs[i as int].symbol, vs[i as int].symbol);
                assert forall|j: int| 0 <= j < i implies (#[trigger] vs[j]).code != code
                    && symbol_key(vs[j].symbol) != symbol_key(vs[i as int].symbol) by {
                    assert(vs[j].valid());
                    lemma_symbol_key(vs[j].symbol, vs[i as int].symbol);
                }
                if codes.contains_key(code) {
                    assert(before[codes[code] as int] == vs[codes[code] as int]);
                }
            }
            match key_of(&cs) {
                Some(key) => {
                    proof {
                        if symbols.contains_key(key) {
                            assert(before[symbols[key] as int] == vs[symbols[key] as int]);
                        }
                    }
                    by_code.insert(code, i);
                    by_symbol.insert(key, i);
                    proof {
                        let after = vs.take(i + 1);
                        assert forall|j: int| 0 <= j < after.len() implies {
                            &&& by_code@.contains_key((#[trigger] after[j]).code)
                            &&& by_code@[after[j].code] == j
                            &&& by_symbol@.contains_key(symbol_key(after[j].symbol) as usize)
                            &&& by_symbol@[symbol_key(after[j].symbol) as usize] == j
                        } by {
                            if j < i {
                                assert(before[j] == vs[j]);
                                assert(vs[j].valid());
                                lemma_symbol_key(vs[j].symbol, vs[j].symbol);
                            }
                        }
                        assert forall|c: u8| #[trigger] by_code@.contains_key(c) implies by_code@[c]
                            < after.len() && after[by_code@[c] as int].code == c by {
                            if c != code {
                                assert(codes.contains_key(c));
                                assert(before[codes[c] as int] == after[codes[c] as int]);
                            }
                        }
                        assert forall|k: usize| #[trigger]
                            by_symbol@.contains_key(k) implies by_symbol@[k] < after.len()
                            && symbol_key(after[by_symbol@[k] as int].symbol) == k by {
                            if k != key {
                                assert(symbols.contains_key(k));
                                assert(before[symbols[k] as int] == after[symbols[k] as int]);
                            }
                        }
                    }
                },
                None => {},
            }
            i = i + 1;
        }
        assert(vs.take(i as int) =~= vs);
        DeviceCatalog { devices, by_code, by_symbol }
    }

    /// Makes a catalog of the given devices. Fails where a device is not
    /// valid or where two devices share a symbol or a code.
    pub fn from_devices(devices: Vec<Device>) -> (r: Result<DeviceCatalog, MelsecError>)
        ensures
            r is Ok <==> well_formed(views(devices@)),
            r is Ok ==> r->Ok_0@ == views(devices@),
            r is Err ==> r->Err_0 is Protocol,
    {
        let ghost vs = views(devices@);
        let mut i: usize = 0;
        while i < devices.len()
            invariant
                i <= devices.len(),
                vs == views(devices@),
                forall|a: int| 0 <= a < i ==> (#[trigger] vs[a]).valid(),
                forall|a: int, b: int|
                    0 <= a < b < i ==> (#[trigger] vs[a]).symbol != (#[trigger] vs[b]).symbol
                        && vs[a].code != vs[b].code,
            decreases devices.len() - i,
        {
            if !devices[i].is_valid() {
                assert(!vs[i as int].valid());
                return Err(MelsecError::protocol("invalid device record"));
            }
            let mut j: usize = 0;
            while j < i
                invariant
                    j <= i < devices.len(),
                    vs == views(devices@),
                    forall|a: int|
                        0 <= a < j ==> (#[trigger] vs[a]).symbol != vs[i as int].symbol && vs[a].code
                            != vs[i as int].code,
                decreases i - j,
            {
                if str_eq(devices[j].symbol.as_str(), devices[i].symbol.as_str())
                    || devices[j].device_code.0 == devices[i].device_code.0 {
                    assert(vs[j as int].symbol == vs[i as int].symbol || vs[j as int].code
                        == vs[i as int].code);
                    return Err(MelsecError::protocol("duplicate device symbol or code"));
                }
                j = j + 1;
            }
            i = i + 1;
        }
        Ok(DeviceCatalog::index(devices))
    }

    /// The number of devices.
    pub fn len(&self) -> (r: usize)
        ensures
            r == self@.len(),
    {
        self.devices.len()
    }

    /// The device at the given place.
    pub fn get(&self, index: usize) -> (r: &Device)
        requires
            index < self@.len(),
        ensures
            r@ == self@[index as int],
    {
        &self.devices[index]
    }
}

/// Looks a device up by its symbol, such as "D" or "M". The symbol is
/// taken as it is written.
pub fn device_by_symbol<'a>(catalog: &'a DeviceCatalog, sym: &str) -> (r: Option<&'a Device>)
    ensures
        well_formed(catalog@),
        match index_of_symbol(catalog@, sym@) {
            Some(i) => r is Some && r->0@ == catalog@[i],
            None => r is None,
        },
{
    proof {
        use_type_invariant(catalog);
        lemma_index_of_symbol(catalog@, sym@);
    }
    let ghost found = index_of_symbol(catalog@, sym@);
    proof {
        if found is Some {
            assert(catalog@[found->0].valid());
            assert(symbol_shape(sym@));
        }
    }
    let n = sym.len();
    if n < 1 || n > 3 {
        proof {
            if symbol_shape(sym@) {
                assert(vstd::utf8::is_ascii_chars(sym@)) by {
                    assert forall|i: int| 0 <= i < sym@.len() implies '\0' <= #[trigger] sym@[i]
                        <= '\u{7f}' by {
                        assert('A' <= sym@[i] <= 'Z');
                    }
                }
                vstd::utf8::is_ascii_chars_encode_utf8(sym@);
            }
        }
        return None;
    }
    let cs = chars_of(sym);
    let key = match key_of(&cs) {
        Some(k) => k,
        None => {
            return None;
        },
    };
    proof {
        lemma_symbol_key(sym@, sym@);
    }
    match catalog.by_symbol.get(&key) {
        None => {
            proof {
                if found is Some {
                    assert(catalog.by_symbol@.contains_key(
                        symbol_key(catalog@[found->0].symbol) as usize,
                    ));
                }
            }
            None
        },
        Some(at) => {
            let t = *at;
            proof {
                let d = catalog@[t as int];
                assert(d.valid());
                lemma_symbol_key(d.symbol, sym@);
                assert(d.symbol == sym@);
                assert(found is Some);
                if found->0 != t {
                    assert(catalog@[found->0].symbol == catalog@[t as int].symbol);
                }
            }
            Some(&catalog.devices[t])
        },
    }
}

/// Looks a device up by its code.
pub fn device_by_code(catalog: &DeviceCatalog, code: u8) -> (r: Option<&Device>)
    ensures
        well_formed(catalog@),
        match index_of_code(catalog@, code) {
            Some(i) => r is Some && r->0@ == catalog@[i],
            None => r is None,
        },
{
    proof {
        use_type_invariant(catalog);
        lemma_index_of_code(catalog@, code);
    }
    let ghost found = index_of_code(catalog@, code);
    match catalog.by_code.get(&code) {
        None => {
            proof {
                if found is Some {
                    assert(catalog.by_code@.contains_key(catalog@[found->0].code));
                }
            }
            None
        },
        Some(at) => {
            let t = *at;
            proof {
                assert(catalog@[t as int].code == code);
                assert(found is Some);
                if found->0 != t {
                    assert(catalog@[found->0].code == catalog@[t as int].code);
                }
            }
            Some(&catalog.devices[t])
        },
    }
}

/// The devices that the given family has, in the order of the catalog.
pub open spec fn of_series(devices: Seq<DeviceView>, series: PLCSeries) -> Seq<DeviceView> {
    devices.filter(|d: DeviceView| d.series.contains(series))
}

fn devices_of_series(catalog: &DeviceCatalog, series: PLCSeries) -> (r: Vec<Device>)
    ensures
        views(r@) == of_series(catalog@, series),
{
    let mut out: Vec<Device> = Vec::new();
    let ghost pred = |d: DeviceView| d.series.contains(series);
    let mut i: usize = 0;
    assert(catalog@.take(0) =~= Seq::<DeviceView>::empty());
    assert(views(out@) =~= catalog@.take(0).filter(pred));
    while i < catalog.devices.len()
        invariant
            i <= catalog.devices.len(),
            catalog@ == views(catalog.devices@),
            pred == |d: DeviceView| d.series.contains(series),
            views(out@) == catalog@.take(i as int).filter(pred),
        decreases catalog.devices.len() - i,
    {
        let ghost before = views(out@);
        proof {
            assert(catalog@.take(i + 1) =~= catalog@.take(i as int).push(catalog@[i as int]));
            assert(catalog@.take(i + 1).drop_last() =~= catalog@.take(i as int));
            reveal(Seq::filter);
        }
        if catalog.devices[i].supports(series) {
            out.push(catalog.devices[i].duplicate());
            assert(views(out@) =~= before.push(catalog@[i as int]));
        }
        i = i + 1;
    }
    assert(catalog@.take(i as int) =~= catalog@);
    out
}

/// The devices of the Q family.
pub fn get_q_devices(catalog: &DeviceCatalog) -> (r: Vec<Device>)
    ensures
        views(r@) == of_series(catalog@, PLCSeries::Q),
{
    devices_of_series(catalog, PLCSeries::Q)
}

/// The devices of the R family.
pub fn get_r_devices(catalog: &DeviceCatalog) -> (r: Vec<Device>)
    ensures
        views(r@) == of_series(catalog@, PLCSeries::R),
{
    devices_of_series(catalog, PLCSeries::R)
}

/// The radix as a number.
pub open spec fn radix(base: NumberBase) -> int {
    match base {
        NumberBase::Decimal => 10,
        NumberBase::Hexadecimal => 16,
    }
}

/// The value of a digit in the given radix. Hexadecimal digits count in
/// either case.
pub open spec fn digit_value(c: char, base: NumberBase) -> Option<int> {
    if '0' <= c <= '9' {
        Some(c as int - 48)
    } else if base == NumberBase::Hexadecimal && 'a' <= c <= 'f' {
        Some(c as int - 87)
    } else if base == NumberBase::Hexadecimal && 'A' <= c <= 'F' {
        Some(c as int - 55)
    } else {
        None
    }
}

/// True if every character is a digit of the radix.
pub open spec fn all_digits(s: Seq<char>, base: NumberBase) -> bool {
    forall|k: int| 0 <= k < s.len() ==> digit_value(#[trigger] s[k], base) is Some
}

/// The value of a run of digits, most significant first.
pub open spec fn digits_value(s: Seq<char>, base: NumberBase) -> int
    decreases s.len(),
{
    if s.len() == 0 {
        0
    } else {
        digits_value(s.drop_last(), base) * radix(base) + digit_value(s.last(), base)->0
    }
}

/// The number that a text stands for in the given radix: one or more
/// digits, which a plus sign may precede.
pub open spec fn spec_parse_number(s: Seq<char>, base: NumberBase) -> Option<int> {
    let digits = if s.len() > 0 && s[0] == '+' {
        s.skip(1)
    } else {
        s
    };
    if digits.len() > 0 && all_digits(digits, base) {
        Some(digits_value(digits, base))
    } else {
        None
    }
}

/// The number of letters of ASCII at the head of `s`.
pub open spec fn letters_len(s: Seq<char>) -> nat
    decreases s.len(),
{
    if s.len() > 0 && spec_is_ascii_letter(s[0]) {
        1 + letters_len(s.skip(1))
    } else {
        0
    }
}

/// The text with its letters of ASCII in upper case.
pub open spec fn upper(s: Seq<char>) -> Seq<char> {
    Seq::new(s.len(), |k: int| spec_ascii_upper(s[k]))
}

/// The largest address: 24 bits.
pub const MAX_ADDRESS: u32 = 0x00FF_FFFF;

/// The device and the number that an address text such as `D100` or
/// `w1fff` names: the place of the device in the catalog and the number,
/// whatever its size. White space around the text and between symbol and
/// number does not count. The letters at the head name the device, in
/// either case; the rest is the number, in the radix of the device. `None`
/// where the text is empty, does not begin with a letter, has no number,
/// names no device, or where the number is no number of that radix.
pub open spec fn spec_address_number(devices: Seq<DeviceView>, s: Seq<char>) -> Option<(int, int)> {
    let t = spec_trim(s);
    let n = letters_len(t);
    let number = spec_trim(t.skip(n as int));
    if n == 0 || number.len() == 0 {
        None
    } else {
        match index_of_symbol(devices, upper(t.take(n as int))) {
            None => None,
            Some(i) => match spec_parse_number(number, devices[i].base) {
                None => None,
                Some(v) => Some((i, v)),
            },
        }
    }
}

/// What an address text stands for: the device and the number that it
/// names, where the number does not exceed `MAX_ADDRESS`.
pub open spec fn spec_parse_address(devices: Seq<DeviceView>, s: Seq<char>) -> Option<(int, u32)> {
    match spec_address_number(devices, s) {
        Some((i, v)) => if v <= MAX_ADDRESS {
            Some((i, v as u32))
        } else {
            None
        },
        None => None,
    }
}

proof fn lemma_letters_len_is(s: Seq<char>, n: nat)
    requires
        n <= s.len(),
        forall|k: int| 0 <= k < n ==> spec_is_ascii_letter(#[trigger] s[k]),
        n < s.len() ==> !spec_is_ascii_letter(s[n as int]),
    ensures
        letters_len(s) == n,
    decreases n,
{
    if n > 0 {
        assert(spec_is_ascii_letter(s[0]));
        let t = s.skip(1);
        assert forall|k: int| 0 <= k < n - 1 implies spec_is_ascii_letter(#[trigger] t[k]) by {
            assert(t[k] == s[k + 1]);
        }
        lemma_letters_len_is(t, (n - 1) as nat);
    }
}

proof fn lemma_digits_value_bounds(s: Seq<char>, base: NumberBase, k: int)
    requires
        all_digits(s, base),
        0 <= k <= s.len(),
    ensures
        0 <= digits_value(s.take(k), base) <= digits_value(s, base),
    decreases s.len() - k,
{
    if k == s.len() {
        assert(s.take(k) =~= s);
        lemma_digits_value_nonneg(s, base);
    } else {
        let t = s.drop_last();
        assert(all_digits(t, base)) by {
            assert forall|i: int| 0 <= i < t.len() implies digit_value(#[trigger] t[i], base)
                is Some by {
                assert(t[i] == s[i]);
            }
        }
        lemma_digits_value_bounds(t, base, k);
        assert(t.take(k) =~= s.take(k));
        lemma_digits_value_nonneg(t, base);
        assert(digit_value(s.last(), base) is Some);
        assert(digits_value(t, base) * radix(base) >= digits_value(t, base)) by (nonlinear_arith)
            requires
                digits_value(t, base) >= 0,
                radix(base) >= 1,
        ;
    }
}

proof fn lemma_digits_value_nonneg(s: Seq<char>, base: NumberBase)
    requires
        all_digits(s, base),
    ensures
        0 <= digits_value(s, base),
    decreases s.len(),
{
    if s.len() > 0 {
        let t = s.drop_last();
        assert(all_digits(t, base)) by {
            assert forall|i: int| 0 <= i < t.len() implies digit_value(#[trigger] t[i], base)
                is Some by {
                assert(t[i] == s[i]);
            }
        }
        lemma_digits_value_nonneg(t, base);
        assert(digit_value(s.last(), base) is Some);
        assert(digits_value(t, base) * radix(base) >= 0) by (nonlinear_arith)
            requires
                digits_value(t, base) >= 0,
                radix(base) >= 1,
        ;
    }
}

fn digit_of(c: char, base: NumberBase) -> (r: Option<u32>)
    ensures
        match digit_value(c, base) {
            Some(v) => r == Some(v as u32) && v < radix(base),
            None => r is None,
        },
{
    if '0' <= c && c <= '9' {
        Some((c as u32) - 48)
    } else if base == NumberBase::Hexadecimal && 'a' <= c && c <= 'f' {
        Some((c as u32) - 87)
    } else if base == NumberBase::Hexadecimal && 'A' <= c && c <= 'F' {
        Some((c as u32) - 55)
    } else {
        None
    }
}

/// Reads `s[from..to]` as a number of the given radix that does not exceed
/// `max`.
#[verifier::loop_isolation(false)]
pub fn parse_bounded(s: &Vec<char>, from: usize, to: usize, base: NumberBase, max: u64) -> (r:
    Option<u64>)
    requires
        from <= to <= s.len(),
    ensures
        match spec_parse_number(s@.subrange(from as int, to as int), base) {
            Some(v) => if v <= max {
                r is Some && r->0 as int == v
            } else {
                r is None
            },
            None => r is None,
        },
{
    let ghost text = s@.subrange(from as int, to as int);
    let start = if from < to && s[from] == '+' {
        from + 1
    } else {
        from
    };
    let ghost digits = s@.subrange(start as int, to as int);
    assert(digits =~= if text.len() > 0 && text[0] == '+' {
        text.skip(1)
    } else {
        text
    });
    if start == to {
        return None;
    }
    let r = match base {
        NumberBase::Decimal => 10u128,
        NumberBase::Hexadecimal => 16u128,
    };
    let mut acc: u64 = 0;
    let mut i: usize = start;
    assert(digits.take(0) =~= Seq::<char>::empty());
    while i < to
        invariant
            start <= i <= to <= s.len(),
            acc <= max,
            acc == digits_value(digits.take(i - start), base),
            forall|k: int| 0 <= k < i - start ==> digit_value(#[trigger] digits[k], base) is Some,
        decreases to - i,
    {
        let d = match digit_of(s[i], base) {
            Some(d) => d,
            None => {
                assert(digit_value(digits[i - start], base) is None);
                return None;
            },
        };
        let next = (acc as u128) * r + (d as u128);
        proof {
            let p = digits.take(i - start + 1);
            assert(p.drop_last() =~= digits.take(i - start));
            assert(p.last() == s@[i as int]);
            assert(next == digits_value(p, base));
        }
        if next > max as u128 {
            proof {
                if all_digits(digits, base) {
                    lemma_digits_value_bounds(digits, base, i - start + 1);
                }
            }
            return None;
        }
        acc = next as u64;
        i = i + 1;
    }
    assert(digits.take(i - start) =~= digits);
    Some(acc)
}

/// Parses an address text such as `D100` or `W1FFF` into the device and
/// the numeric address.
#[verifier::loop_isolation(false)]
pub fn parse_device_and_address<'a>(catalog: &'a DeviceCatalog, s: &str) -> (r: Result<
    (&'a Device, u32),
    MelsecError,
>)
    ensures
        well_formed(catalog@),
        match spec_parse_address(catalog@, s@) {
            Some((i, address)) => r is Ok && r->Ok_0.0@ == catalog@[i] && r->Ok_0.1 == address,
            None => r is Err && r->Err_0 is Protocol,
        },
{
    proof {
        use_type_invariant(catalog);
    }
    let cs = chars_of(s);
    let (a, b) = trim_bounds(&cs, 0, cs.len());
    assert(cs@.subrange(0, cs.len() as int) =~= s@);
    let ghost t = spec_trim(s@);
    if a == b {
        return Err(MelsecError::protocol("empty device string"));
    }
    let mut symbol = String::new();
    let mut e: usize = a;
    while e < b && is_ascii_letter(cs[e])
        invariant
            a <= e <= b <= cs.len(),
            t == cs@.subrange(a as int, b as int),
            forall|k: int| 0 <= k < e - a ==> spec_is_ascii_letter(#[trigger] t[k]),
            symbol@ == upper(t.take(e - a)),
        decreases b - e,
    {
        symbol.push(ascii_upper(cs[e]));
        assert(symbol@ =~= upper(t.take(e - a + 1)));
        e = e + 1;
    }
    proof {
        lemma_letters_len_is(t, (e - a) as nat);
    }
    if e == a {
        return Err(MelsecError::protocol("invalid device string"));
    }
    let (c, d) = trim_bounds(&cs, e, b);
    assert(cs@.subrange(e as int, b as int) =~= t.skip(e - a));
    if c == d {
        return Err(MelsecError::protocol("missing numeric address in device string"));
    }
    let device = match device_by_symbol(catalog, symbol.as_str()) {
        Some(device) => device,
        None => {
            return Err(MelsecError::protocol("unknown device symbol"));
        },
    };
    let ghost number = cs@.subrange(c as int, d as int);
    assert(number == spec_trim(t.skip(e - a)));
    match parse_bounded(&cs, c, d, device.base, 0x00FF_FFFF) {
        Some(address) => {
            Ok((device, address as u32))
        },
        None => Err(MelsecError::protocol("invalid or out-of-range numeric address")),
    }
}

/// The character for a digit under 16, letters in upper case.
pub open spec fn digit_char(d: int) -> char {
    if d < 10 {
        ((48 + d) as u8) as char
    } else {
        ((55 + d) as u8) as char
    }
}

/// `a` divided by the radix.
pub open spec fn quotient(a: nat, base: NumberBase) -> nat {
    match base {
        NumberBase::Decimal => a / 10,
        NumberBase::Hexadecimal => a / 16,
    }
}

/// What `a` leaves when divided by the radix.
pub open spec fn remainder(a: nat, base: NumberBase) -> int {
    match base {
        NumberBase::Decimal => a as int % 10,
        NumberBase::Hexadecimal => a as int % 16,
    }
}

/// A number written in the given radix, without leading zeros.
pub open spec fn format_number(a: nat, base: NumberBase) -> Seq<char>
    decreases a,
{
    if a < radix(base) {
        seq![digit_char(a as int)]
    } else {
        format_number(quotient(a, base), base).push(digit_char(remainder(a, base)))
    }
}

/// An address written as the symbol of the device followed by the number
/// in the radix of the device.
pub open spec fn format_address(device: DeviceView, a: nat) -> Seq<char> {
    device.symbol + format_number(a, device.base)
}

/// A written number is a run of digits of its radix, none of them white
/// space or a plus sign, and has the number as its value.
proof fn lemma_format_number(a: nat, base: NumberBase)
    ensures
        format_number(a, base).len() >= 1,
        all_digits(format_number(a, base), base),
        digits_value(format_number(a, base), base) == a,
        forall|k: int|
            0 <= k < format_number(a, base).len() ==> {
                let c = #[trigger] format_number(a, base)[k];
                !spec_is_whitespace(c) && c != '+'
            },
    decreases a,
{
    let f = format_number(a, base);
    let r = radix(base);
    if a < r {
        assert(f =~= seq![digit_char(a as int)]);
        assert(f.drop_last() =~= Seq::<char>::empty());
        assert(digit_value(digit_char(a as int), base) == Some(a as int));
        assert(digits_value(f.drop_last(), base) == 0);
        assert(f.last() == digit_char(a as int));
    } else {
        let q = quotient(a, base);
        let d = remainder(a, base);
        lemma_format_number(q, base);
        let g = format_number(q, base);
        assert(f =~= g.push(digit_char(d)));
        assert(f.drop_last() =~= g);
        assert(digit_value(digit_char(d), base) == Some(d));
        assert forall|k: int| 0 <= k < f.len() implies digit_value(#[trigger] f[k], base)
            is Some by {
            if k < g.len() {
                assert(f[k] == g[k]);
            }
        }
        assert forall|k: int| 0 <= k < f.len() implies {
            let c = #[trigger] f[k];
            !spec_is_whitespace(c) && c != '+'
        } by {
            if k < g.len() {
                assert(f[k] == g[k]);
            }
        }
        assert(f.last() == digit_char(d));
        assert(digits_value(f, base) == digits_value(g, base) * r + d);
        assert(q * r + d == a);
    }
}

/// Writing an address and parsing it gives the device and the address
/// back: for every device of a catalog and every address up to
/// `MAX_ADDRESS` whose written number does not begin with a letter. (A
/// hexadecimal number that begins with one of A to F runs into the symbol.)
pub proof fn lemma_address_round_trip(devices: Seq<DeviceView>, i: int, a: u32)
    requires
        well_formed(devices),
        0 <= i < devices.len(),
        a <= MAX_ADDRESS,
        !spec_is_ascii_letter(format_number(a as nat, devices[i].base)[0]),
    ensures
        spec_parse_address(devices, format_address(devices[i], a as nat)) == Some((i, a)),
{
    let d = devices[i];
    let f = format_number(a as nat, d.base);
    let s = format_address(d, a as nat);
    let n = d.symbol.len();
    lemma_format_number(a as nat, d.base);
    assert(d.valid());
    assert(s.len() == n + f.len());
    assert forall|k: int| 0 <= k < n implies spec_is_ascii_letter(#[trigger] s[k]) by {
        assert(s[k] == d.symbol[k]);
    }
    assert(s[n as int] == f[0]);
    assert(s[0] == d.symbol[0]);
    assert(s.last() == f.last());
    assert(!spec_is_whitespace(s[0]));
    assert(!spec_is_whitespace(f.last()));
    lemma_leading_spaces_is(s, 0);
    lemma_trailing_spaces_is(s, 0);
    assert(spec_trim(s) =~= s);
    lemma_letters_len_is(s, n);
    assert(upper(s.take(n as int)) =~= d.symbol);
    assert(s.skip(n as int) =~= f);
    lemma_leading_spaces_is(f, 0);
    lemma_trailing_spaces_is(f, 0);
    assert(spec_trim(f) =~= f);
    lemma_index_of_symbol(devices, d.symbol);
    assert(index_of_symbol(devices, d.symbol) == Some(i));
    assert(f[0] != '+');
}

/// An address text whose number lies above `MAX_ADDRESS` is rejected, and
/// no address that is accepted lies above it.
pub proof fn lemma_address_range(devices: Seq<DeviceView>, s: Seq<char>)
    ensures
        (spec_address_number(devices, s) matches Some((_, v)) && v > MAX_ADDRESS)
            ==> spec_parse_address(devices, s) is None,
        spec_parse_address(devices, s) matches Some((_, a)) ==> a <= MAX_ADDRESS,
{
    if spec_address_number(devices, s) is Some {
        let found = spec_address_number(devices, s)->0;
        let i = found.0;
        let t = spec_trim(s);
        let number = spec_trim(t.skip(letters_len(t) as int));
        let digits = if number.len() > 0 && number[0] == '+' {
            number.skip(1)
        } else {
            number
        };
        lemma_digits_value_nonneg(digits, devices[i].base);
    }
}

/// The view of a catalog entry.
pub open spec fn spec_entry(
    symbol: Seq<char>,
    code: u8,
    category: DeviceType,
    base: NumberBase,
    description: Seq<char>,
    q: bool,
    r: bool,
) -> DeviceView {
    DeviceView {
        symbol,
        category,
        base,
        code,
        description,
        series: if q && r {
            seq![PLCSeries::Q, PLCSeries::R]
        } else if q {
            seq![PLCSeries::Q]
        } else if r {
            seq![PLCSeries::R]
        } else {
            Seq::empty()
        },
    }
}

fn entry(
    symbol: &str,
    code: u8,
    category: DeviceType,
    base: NumberBase,
    description: &str,
    q: bool,
    r: bool,
) -> (d: Device)
    ensures
        d@ == spec_entry(symbol@, code, category, base, description@, q, r),
{
    let mut series: Vec<PLCSeries> = Vec::new();
    if q {
        series.push(PLCSeries::Q);
    }
    if r {
        series.push(PLCSeries::R);
    }
    assert(series@ =~= spec_entry(symbol@, code, category, base, description@, q, r).series);
    Device {
        symbol: owned(symbol),
        category,
        base,
        device_code: DeviceCode(code),
        description: owned(description),
        supported_series: series,
    }
}

/// The devices that the library knows without a catalog document.
pub open spec fn spec_baseline() -> Seq<DeviceView> {
    seq![
        spec_entry("D"@, 0xA8, DeviceType::Word, NumberBase::Decimal, "Data register"@, true, true),
        spec_entry("W"@, 0xB4, DeviceType::Word, NumberBase::Hexadecimal, "Link register"@, true, true),
        spec_entry("M"@, 0x90, DeviceType::Bit, NumberBase::Decimal, "Internal relay"@, true, true),
        spec_entry("X"@, 0x9C, DeviceType::Bit, NumberBase::Hexadecimal, "Input"@, true, true),
        spec_entry("Y"@, 0x9D, DeviceType::Bit, NumberBase::Hexadecimal, "Output"@, true, true),
        spec_entry("L"@, 0x92, DeviceType::Bit, NumberBase::Decimal, "Latch relay"@, true, true),
        spec_entry("F"@, 0x93, DeviceType::Bit, NumberBase::Decimal, "Annunciator"@, true, true),
        spec_entry("V"@, 0x94, DeviceType::Bit, NumberBase::Decimal, "Edge relay"@, true, true),
        spec_entry("B"@, 0xA0, DeviceType::Bit, NumberBase::Hexadecimal, "Link relay"@, true, true),
        spec_entry("TS"@, 0xC1, DeviceType::Bit, NumberBase::Decimal, "Timer contact"@, true, true),
        spec_entry("TC"@, 0xC0, DeviceType::Bit, NumberBase::Decimal, "Timer coil"@, true, true),
        spec_entry("TN"@, 0xC2, DeviceType::Word, NumberBase::Decimal, "Timer current value"@, true, true),
        spec_entry("SN"@, 0xC8, DeviceType::Word, NumberBase::Decimal, "Retentive timer current value"@, true, true),
        spec_entry("CN"@, 0xC5, DeviceType::Word, NumberBase::Decimal, "Counter current value"@, true, true),
        spec_entry("CS"@, 0xC4, DeviceType::Bit, NumberBase::Decimal, "Counter contact"@, true, true),
        spec_entry("CC"@, 0xC3, DeviceType::Bit, NumberBase::Decimal, "Counter coil"@, true, true),
        spec_entry("ZR"@, 0xB0, DeviceType::Word, NumberBase::Hexadecimal, "File register"@, true, true),
        spec_entry("SW"@, 0xB5, DeviceType::Word, NumberBase::Hexadecimal, "Link special register"@, true, true),
        spec_entry("LTN"@, 0x52, DeviceType::DoubleWord, NumberBase::Decimal, "Long timer current value"@, false, true),
    ]
}

/// The built-in devices make a catalog.
pub proof fn lemma_baseline_well_formed()
    ensures
        well_formed(spec_baseline()),
{
    reveal_strlit("D");
    reveal_strlit("W");
    reveal_strlit("M");
    reveal_strlit("X");
    reveal_strlit("Y");
    reveal_strlit("L");
    reveal_strlit("F");
    reveal_strlit("V");
    reveal_strlit("B");
    reveal_strlit("TS");
    reveal_strlit("TC");
    reveal_strlit("TN");
    reveal_strlit("SN");
    reveal_strlit("CN");
    reveal_strlit("CS");
    reveal_strlit("CC");
    reveal_strlit("ZR");
    reveal_strlit("SW");
    reveal_strlit("LTN");
    let b = spec_baseline();
    assert(b.len() == 19);
    assert forall|i: int| 0 <= i < b.len() implies (#[trigger] b[i]).valid() by {}
    assert forall|i: int, j: int| 0 <= i < j < b.len() implies (#[trigger] b[i]).symbol != (
    #[trigger] b[j]).symbol && b[i].code != b[j].code by {
        let x = b[i].symbol;
        let y = b[j].symbol;
        if x.len() == y.len() {
            assert(x[0] != y[0] || x[x.len() - 1] != y[y.len() - 1]);
        }
    }
}

impl DeviceCatalog {
    /// The catalog of the built-in devices.
    pub fn baseline() -> (r: DeviceCatalog)
        ensures
            r@ == spec_baseline(),
    {
        let mut v: Vec<Device> = Vec::new();
        v.push(entry("D", 0xA8, DeviceType::Word, NumberBase::Decimal, "Data register", true, true));
        v.push(entry("W", 0xB4, DeviceType::Word, NumberBase::Hexadecimal, "Link register", true, true));
        v.push(entry("M", 0x90, DeviceType::Bit, NumberBase::Decimal, "Internal relay", true, true));
        v.push(entry("X", 0x9C, DeviceType::Bit, NumberBase::Hexadecimal, "Input", true, true));
        v.push(entry("Y", 0x9D, DeviceType::Bit, NumberBase::Hexadecimal, "Output", true, true));
        v.push(entry("L", 0x92, DeviceType::Bit, NumberBase::Decimal, "Latch relay", true, true));
        v.push(entry("F", 0x93, DeviceType::Bit, NumberBase::Decimal, "Annunciator", true, true));
        v.push(entry("V", 0x94, DeviceType::Bit, NumberBase::Decimal, "Edge relay", true, true));
        v.push(entry("B", 0xA0, DeviceType::Bit, NumberBase::Hexadecimal, "Link relay", true, true));
        v.push(entry("TS", 0xC1, DeviceType::Bit, NumberBase::Decimal, "Timer contact", true, true));
        v.push(entry("TC", 0xC0, DeviceType::Bit, NumberBase::Decimal, "Timer coil", true, true));
        v.push(entry("TN", 0xC2, DeviceType::Word, NumberBase::Decimal, "Timer current value", true, true));
        v.push(entry("SN", 0xC8, DeviceType::Word, NumberBase::Decimal, "Retentive timer current value", true, true));
        v.push(entry("CN", 0xC5, DeviceType::Word, NumberBase::Decimal, "Counter current value", true, true));
        v.push(entry("CS", 0xC4, DeviceType::Bit, NumberBase::Decimal, "Counter contact", true, true));
        v.push(entry("CC", 0xC3, DeviceType::Bit, NumberBase::Decimal, "Counter coil", true, true));
        v.push(entry("ZR", 0xB0, DeviceType::Word, NumberBase::Hexadecimal, "File register", true, true));
        v.push(entry("SW", 0xB5, DeviceType::Word, NumberBase::Hexadecimal, "Link special register", true, true));
        v.push(entry("LTN", 0x52, DeviceType::DoubleWord, NumberBase::Decimal, "Long timer current value", false, true));
        proof {
            assert(views(v@) =~= spec_baseline());
            lemma_baseline_well_formed();
        }
        DeviceCatalog::index(v)
    }

    /// The catalog in force where an overlay may be present: the overlay,
    /// if there is one, else the baseline.
    pub fn with_overlay(baseline: DeviceCatalog, overlay: Option<DeviceCatalog>) -> (r: DeviceCatalog)
        ensures
            r@ == (match overlay {
                Some(o) => o@,
                None => baseline@,
            }),
    {
        match overlay {
            Some(o) => o,
            None => baseline,
        }
    }
}

/// A device as a catalog document writes it.
#[derive(Debug)]
pub struct RawDevice {
    pub symbol: String,
    pub code: u32,
    /// `Bit`, `Word` or `DoubleWord`.
    pub category: String,
    /// `Decimal` or `Hexadecimal`.
    pub base: String,
    pub description: String,
    /// Each of them `Q` or `R`.
    pub series: Vec<String>,
}

/// The content of a `RawDevice`.
pub struct RawDeviceView {
    pub symbol: Seq<char>,
    pub code: u32,
    pub category: Seq<char>,
    pub base: Seq<char>,
    pub description: Seq<char>,
    pub series: Seq<Seq<char>>,
}

impl DeepView for RawDevice {
    type V = RawDeviceView;

    open spec fn deep_view(&self) -> RawDeviceView {
        RawDeviceView {
            symbol: self.symbol@,
            code: self.code,
            category: self.category@,
            base: self.base@,
            description: self.description@,
            series: self.series.deep_view(),
        }
    }
}

/// The category that a name stands for.
pub open spec fn spec_category(name: Seq<char>) -> Option<DeviceType> {
    if name == "Bit"@ {
        Some(DeviceType::Bit)
    } else if name == "Word"@ {
        Some(DeviceType::Word)
    } else if name == "DoubleWord"@ {
        Some(DeviceType::DoubleWord)
    } else {
        None
    }
}

/// The radix that a name stands for.
pub open spec fn spec_base(name: Seq<char>) -> Option<NumberBase> {
    if name == "Decimal"@ {
        Some(NumberBase::Decimal)
    } else if name == "Hexadecimal"@ {
        Some(NumberBase::Hexadecimal)
    } else {
        None
    }
}

/// The families that a list of names stands for, or `None` where a name
/// is neither `Q` nor `R`.
pub open spec fn spec_series_list(names: Seq<Seq<char>>) -> Option<Seq<PLCSeries>>
    decreases names.len(),
{
    if names.len() == 0 {
        Some(Seq::empty())
    } else {
        match spec_series_list(names.drop_last()) {
            None => None,
            Some(done) => if names.last() == "Q"@ {
                Some(done.push(PLCSeries::Q))
            } else if names.last() == "R"@ {
                Some(done.push(PLCSeries::R))
            } else {
                None
            },
        }
    }
}

/// The device that a record stands for, or `None` where its category, its
/// radix or one of its series is not one of the known names, or its code
/// does not fit one byte.
pub open spec fn spec_parse_device(raw: RawDeviceView) -> Option<DeviceView> {
    match (spec_category(raw.category), spec_base(raw.base), spec_series_list(raw.series)) {
        (Some(category), Some(base), Some(series)) => if raw.code <= 0xFF {
            Some(
                DeviceView {
                    symbol: raw.symbol,
                    category,
                    base,
                    code: raw.code as u8,
                    description: raw.description,
                    series,
                },
            )
        } else {
            None
        },
        _ => None,
    }
}

/// The devices that a list of records stands for, or `None` where a
/// record is rejected.
pub open spec fn spec_parse_devices(raws: Seq<RawDeviceView>) -> Option<Seq<DeviceView>>
    decreases raws.len(),
{
    if raws.len() == 0 {
        Some(Seq::empty())
    } else {
        match (spec_parse_devices(raws.drop_last()), spec_parse_device(raws.last())) {
            (Some(done), Some(d)) => Some(done.push(d)),
            _ => None,
        }
    }
}

proof fn lemma_series_list_prefix(names: Seq<Seq<char>>, k: int)
    requires
        0 <= k <= names.len(),
        spec_series_list(names) is Some,
    ensures
        spec_series_list(names.take(k)) is Some,
    decreases names.len(),
{
    if k == names.len() {
        assert(names.take(k) =~= names);
    } else {
        lemma_series_list_prefix(names.drop_last(), k);
        assert(names.drop_last().take(k) =~= names.take(k));
    }
}

proof fn lemma_parse_devices_prefix(raws: Seq<RawDeviceView>, k: int)
    requires
        0 <= k <= raws.len(),
        spec_parse_devices(raws) is Some,
    ensures
        spec_parse_devices(raws.take(k)) is Some,
    decreases raws.len(),
{
    if k == raws.len() {
        assert(raws.take(k) =~= raws);
    } else {
        lemma_parse_devices_prefix(raws.drop_last(), k);
        assert(raws.drop_last().take(k) =~= raws.take(k));
    }
}

#[verifier::loop_isolation(false)]
fn parse_series_list(names: &Vec<String>) -> (r: Option<Vec<PLCSeries>>)
    ensures
        match spec_series_list(names.deep_view()) {
            Some(series) => r is Some && r->0@ == series,
            None => r is None,
        },
{
    let ghost all = names.deep_view();
    let mut out: Vec<PLCSeries> = Vec::new();
    let mut i: usize = 0;
    assert(all.take(0) =~= Seq::<Seq<char>>::empty());
    while i < names.len()
        invariant
            i <= names.len(),
            spec_series_list(all.take(i as int)) == Some(out@),
        decreases names.len() - i,
    {
        proof {
            assert(all.take(i + 1).drop_last() =~= all.take(i as int));
            assert(all.take(i + 1).last() == names@[i as int]@);
        }
        if str_eq(names[i].as_str(), "Q") {
            out.push(PLCSeries::Q);
        } else if str_eq(names[i].as_str(), "R") {
            out.push(PLCSeries::R);
        } else {
            proof {
                if spec_series_list(all) is Some {
                    lemma_series_list_prefix(all, i + 1);
                }
            }
            return None;
        }
        i = i + 1;
    }
    assert(all.take(i as int) =~= all);
    Some(out)
}

/// Parses one device record.
pub fn parse_device(raw: &RawDevice) -> (r: Result<Device, MelsecError>)
    ensures
        match spec_parse_device(raw.deep_view()) {
            Some(d) => r is Ok && r->Ok_0@ == d,
            None => r is Err && r->Err_0 is Protocol,
        },
{
    let category = if str_eq(raw.category.as_str(), "Bit") {
        DeviceType::Bit
    } else if str_eq(raw.category.as_str(), "Word") {
        DeviceType::Word
    } else if str_eq(raw.category.as_str(), "DoubleWord") {
        DeviceType::DoubleWord
    } else {
        return Err(MelsecError::protocol("invalid device category"));
    };
    let base = if str_eq(raw.base.as_str(), "Decimal") {
        NumberBase::Decimal
    } else if str_eq(raw.base.as_str(), "Hexadecimal") {
        NumberBase::Hexadecimal
    } else {
        return Err(MelsecError::protocol("invalid device base"));
    };
    let series = match parse_series_list(&raw.series) {
        Some(s) => s,
        None => {
            return Err(MelsecError::protocol("invalid device series"));
        },
    };
    if raw.code > 0xFF {
        return Err(MelsecError::protocol("device code out of range"));
    }
    Ok(
        Device {
            symbol: raw.symbol.clone(),
            category,
            base,
            device_code: DeviceCode(raw.code as u8),
            description: raw.description.clone(),
            supported_series: series,
        },
    )
}

/// Parses the records of a catalog document into devices.
#[verifier::loop_isolation(false)]
pub fn parse_devices(raws: &Vec<RawDevice>) -> (r: Result<Vec<Device>, MelsecError>)
    ensures
        match spec_parse_devices(raws.deep_view()) {
            Some(ds) => r is Ok && views(r->Ok_0@) == ds,
            None => r is Err && r->Err_0 is Protocol,
        },
{
    let ghost all = raws.deep_view();
    let mut out: Vec<Device> = Vec::new();
    let mut i: usize = 0;
    assert(all.take(0) =~= Seq::<RawDeviceView>::empty());
    assert(views(out@) =~= Seq::<DeviceView>::empty());
    while i < raws.len()
        invariant
            i <= raws.len(),
            spec_parse_devices(all.take(i as int)) == Some(views(out@)),
        decreases raws.len() - i,
    {
        let ghost before_views = views(out@);
        proof {
            assert(all.take(i + 1).drop_last() =~= all.take(i as int));
            assert(all.take(i + 1).last() == raws@[i as int].deep_view());
        }
        match parse_device(&raws[i]) {
            Ok(d) => {
                out.push(d);
                assert(views(out@) =~= before_views.push(d@));
            },
            Err(e) => {
                proof {
                    if spec_parse_devices(all) is Some {
                        lemma_parse_devices_prefix(all, i + 1);
                    }
                }
                return Err(e);
            },
        }
        i = i + 1;
    }
    assert(all.take(i as int) =~= all);
    Ok(out)
}

impl DeviceCatalog {
    /// Makes the catalog that the records of a catalog document stand for.
    /// Fails where a record is rejected, a device is not valid, or two
    /// devices share a symbol or a code.
    pub fn from_raw(raws: &Vec<RawDevice>) -> (r: Result<DeviceCatalog, MelsecError>)
        ensures
            match spec_parse_devices(raws.deep_view()) {
                Some(ds) => if well_formed(ds) {
                    r is Ok && r->Ok_0@ == ds
                } else {
                    r is Err && r->Err_0 is Protocol
                },
                None => r is Err && r->Err_0 is Protocol,
            },
    {
        match parse_devices(raws) {
            Ok(devices) => DeviceCatalog::from_devices(devices),
            Err(e) => Err(e),
        }
    }
}

/// True if the baseline has a device for the code of every device.
pub open spec fn codes_known(baseline: Seq<DeviceView>, devices: Seq<DeviceView>) -> bool {
    forall|i: int|
        0 <= i < devices.len() ==> index_of_code(baseline, (#[trigger] devices[i]).code) is Some
}

impl DeviceCatalog {
    /// Makes the overlay catalog that the records of a catalog document
    /// stand for. An overlay may only hold devices whose codes the
    /// baseline knows.
    #[verifier::loop_isolation(false)]
    pub fn overlay_from_raw(baseline: &DeviceCatalog, raws: &Vec<RawDevice>) -> (r: Result<
        DeviceCatalog,
        MelsecError,
    >)
        ensures
            match spec_parse_devices(raws.deep_view()) {
                Some(ds) => if well_formed(ds) && codes_known(baseline@, ds) {
                    r is Ok && r->Ok_0@ == ds
                } else {
                    r is Err && r->Err_0 is Protocol
                },
                None => r is Err && r->Err_0 is Protocol,
            },
    {
        let catalog = match DeviceCatalog::from_raw(raws) {
            Ok(c) => c,
            Err(e) => {
                return Err(e);
            },
        };
        let n = catalog.len();
        let mut i: usize = 0;
        while i < n
            invariant
                i <= n,
                n == catalog@.len(),
                forall|k: int|
                    0 <= k < i ==> index_of_code(baseline@, (#[trigger] catalog@[k]).code) is Some,
            decreases n - i,
        {
            let code = catalog.get(i).device_code.0;
            if device_by_code(baseline, code).is_none() {
                assert(index_of_code(baseline@, catalog@[i as int].code) is None);
                return Err(MelsecError::protocol("unknown device code"));
            }
            i = i + 1;
        }
        Ok(catalog)
    }
}

impl DeviceCode {
    /// The symbol of the device that the catalog has for this code, or
    /// `UNKNOWN`.
    pub fn as_str<'a>(&self, catalog: &'a DeviceCatalog) -> (r: &'a str)
        ensures
            r@ == (match index_of_code(catalog@, self.0) {
                Some(i) => catalog@[i].symbol,
                None => "UNKNOWN"@,
            }),
    {
        match device_by_code(catalog, self.0) {
            Some(d) => d.symbol.as_str(),
            None => "UNKNOWN",
        }
    }

    /// The code as a device code, where the catalog has a device for it.
    pub fn try_from(catalog: &DeviceCatalog, v: u8) -> (r: Result<DeviceCode, MelsecError>)
        ensures
            match index_of_code(catalog@, v) {
                Some(_) => r == Ok::<DeviceCode, MelsecError>(DeviceCode(v)),
                None => r is Err && r->Err_0 is Protocol,
            },
    {
        match device_by_code(catalog, v) {
            Some(_) => Ok(DeviceCode(v)),
            None => Err(MelsecError::protocol("unknown device code")),
        }
    }

    /// The code of the device that the catalog has for the symbol.
    pub fn from_str(catalog: &DeviceCatalog, name: &str) -> (r: Result<DeviceCode, MelsecError>)
        ensures
            match index_of_symbol(catalog@, name@) {
                Some(i) => r is Ok && r->Ok_0.0 == catalog@[i].code,
                None => r is Err && r->Err_0 is Protocol,
            },
    {
        match device_by_symbol(catalog, name) {
            Some(d) => Ok(d.device_code),
            None => Err(MelsecError::Protocol(owned("unknown device: ").concat(name))),
        }
    }

    /// The code of the device that the catalog has for the symbol, as a
    /// number.
    pub fn from_name(catalog: &DeviceCatalog, name: &str) -> (r: Result<u8, MelsecError>)
        ensures
            match index_of_symbol(catalog@, name@) {
                Some(i) => r is Ok && r->Ok_0 == catalog@[i].code,
                None => r is Err && r->Err_0 is Protocol,
            },
    {
        match DeviceCode::from_str(catalog, name) {
            Ok(c) => Ok(c.0),
            Err(e) => Err(e),
        }
    }
}

} // verus!
