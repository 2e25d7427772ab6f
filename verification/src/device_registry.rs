//! Device overrides: records that replace or add to what is known of a
//! device.

use vstd::prelude::*;
use vstd::string::*;
use crate::error::MelsecError;
use crate::once::OnceSlot;
use crate::text::{chars_of, spec_trim, str_eq, trim_bounds};

verus! {

/// Where one bit of a block lies in the packed payload.
#[derive(Clone, Copy, Debug, PartialEq, Eq, Structural)]
pub struct BitMapEntryOwned {
    /// The index of the bit within its block.
    pub bit_index: u32,
    /// The offset of the byte that holds the bit.
    pub byte_offset: Option<u32>,
    /// The position of the bit within its byte, from 0 to 7.
    pub bit_pos: u8,
}

/// An override record for one device.
#[derive(Debug, PartialEq, Eq)]
pub struct DeviceOverride {
    pub symbol: String,
    pub code: u32,
    pub category: String,
    pub base: Option<String>,
    pub description: Option<String>,
    pub gui_name: Option<String>,
    pub compatible_series: Option<Vec<String>>,
    pub bit_mapping: Option<Vec<BitMapEntryOwned>>,
}

/// The content of a `DeviceOverride`.
pub struct DeviceOverrideView {
    pub symbol: Seq<char>,
    pub code: u32,
    pub category: Seq<char>,
    pub base: Option<Seq<char>>,
    pub description: Option<Seq<char>>,
    pub gui_name: Option<Seq<char>>,
    pub compatible_series: Option<Seq<Seq<char>>>,
    pub bit_mapping: Option<Seq<BitMapEntryOwned>>,
}

impl DeepView for DeviceOverride {
    type V = DeviceOverrideView;

    open spec fn deep_view(&self) -> DeviceOverrideView {
        DeviceOverrideView {
            symbol: self.symbol@,
            code: self.code,
            category: self.category@,
            base: self.base.deep_view(),
            description: self.description.deep_view(),
            gui_name: self.gui_name.deep_view(),
            compatible_series: self.compatible_series.deep_view(),
            bit_mapping: match self.bit_mapping {
                Some(m) => Some(m@),
                None => None,
            },
        }
    }
}

/// True for the names of the controller families.
pub open spec fn is_series_name(s: Seq<char>) -> bool {
    s == "Q"@ || s == "R"@
}

/// True if the text holds something besides white space.
pub open spec fn not_blank(s: Seq<char>) -> bool {
    spec_trim(s).len() > 0
}

impl DeviceOverrideView {
    /// True if the record is sound by itself: the symbol and the display
    /// name, if any, are not blank; the code fits 16 bits; the category is
    /// `Bit`, `Word` or `DoubleWord`; every series is `Q` or `R`; every
    /// bit position is under 8.
    pub open spec fn valid(self) -> bool {
        &&& not_blank(self.symbol)
        &&& self.code <= 0xFFFF
        &&& (self.category == "Bit"@ || self.category == "Word"@ || self.category == "DoubleWord"@)
        &&& match self.gui_name {
            Some(g) => not_blank(g),
            None => true,
        }
        &&& match self.compatible_series {
            Some(series) => forall|k: int|
                0 <= k < series.len() ==> is_series_name(#[trigger] series[k]),
            None => true,
        }
        &&& match self.bit_mapping {
            Some(m) => forall|k: int| 0 <= k < m.len() ==> (#[trigger] m[k]).bit_pos < 8,
            None => true,
        }
    }
}

/// True if a document of override records is sound: every record is, and
/// no two records share a symbol.
pub open spec fn valid_overrides(records: Seq<DeviceOverrideView>) -> bool {
    &&& forall|i: int| 0 <= i < records.len() ==> (#[trigger] records[i]).valid()
    &&& forall|i: int, j: int|
        0 <= i < j < records.len() ==> (#[trigger] records[i]).symbol != (
        #[trigger] records[j]).symbol
}

fn is_not_blank(s: &str) -> (r: bool)
    ensures
        r == not_blank(s@),
{
    let cs = chars_of(s);
    assert(cs@.subrange(0, cs.len() as int) =~= s@);
    let (a, b) = trim_bounds(&cs, 0, cs.len());
    a < b
}

fn copy_text(s: &Option<String>) -> (r: Option<String>)
    ensures
        r.deep_view() == s.deep_view(),
{
    match s {
        Some(t) => Some(t.clone()),
        None => None,
    }
}

impl DeviceOverride {
    /// True if the record is sound by itself.
    #[verifier::loop_isolation(false)]
    pub fn is_valid(&self) -> (r: bool)
        ensures
            r == self.deep_view().valid(),
    {
        if !is_not_blank(self.symbol.as_str()) || self.code > 0xFFFF {
            return false;
        }
        if !(str_eq(self.category.as_str(), "Bit") || str_eq(self.category.as_str(), "Word")
            || str_eq(self.category.as_str(), "DoubleWord")) {
            return false;
        }
        match &self.gui_name {
            Some(g) => {
                if !is_not_blank(g.as_str()) {
                    return false;
                }
            },
            None => {},
        }
        match &self.compatible_series {
            Some(series) => {
                let ghost sv = series.deep_view();
                assert(self.deep_view().compatible_series == Some(sv));
                let mut i: usize = 0;
                while i < series.len()
                    invariant
                        i <= series.len(),
                        forall|k: int| 0 <= k < i ==> is_series_name(#[trigger] sv[k]),
                    decreases series.len() - i,
                {
                    assert(sv[i as int] == series@[i as int]@);
                    if !(str_eq(series[i].as_str(), "Q") || str_eq(series[i].as_str(), "R")) {
                        assert(!is_series_name(
                            self.deep_view().compatible_series->0[i as int],
                        ));
                        return false;
                    }
                    i = i + 1;
                }
            },
            None => {},
        }
        match &self.bit_mapping {
            Some(m) => {
                let mut i: usize = 0;
                while i < m.len()
                    invariant
                        i <= m.len(),
                        forall|k: int| 0 <= k < i ==> (#[trigger] m@[k]).bit_pos < 8,
                    decreases m.len() - i,
                {
                    if m[i].bit_pos >= 8 {
                        return false;
                    }
                    i = i + 1;
                }
            },
            None => {},
        }
        true
    }

    /// A copy of the record.
    pub fn duplicate(&self) -> (r: DeviceOverride)
        ensures
            r.deep_view() == self.deep_view(),
    {
        let compatible_series = match &self.compatible_series {
            Some(series) => {
                let mut out: Vec<String> = Vec::new();
                let mut i: usize = 0;
                while i < series.len()
                    invariant
                        i <= series.len(),
                        out.len() == i,
                        forall|k: int| 0 <= k < i ==> (#[trigger] out@[k])@ == series@[k]@,
                    decreases series.len() - i,
                {
                    out.push(series[i].clone());
                    i = i + 1;
                }
                assert(out.deep_view() =~= series.deep_view());
                Some(out)
            },
            None => None,
        };
        let bit_mapping = match &self.bit_mapping {
            Some(m) => {
                let mut out: Vec<BitMapEntryOwned> = Vec::new();
                let mut i: usize = 0;
                while i < m.len()
                    invariant
                        i <= m.len(),
                        out@ == m@.take(i as int),
                    decreases m.len() - i,
                {
                    out.push(m[i]);
                    assert(out@ =~= m@.take(i + 1));
                    i = i + 1;
                }
                assert(m@.take(i as int) =~= m@);
                Some(out)
            },
            None => None,
        };
        DeviceOverride {
            symbol: self.symbol.clone(),
            code: self.code,
            category: self.category.clone(),
            base: copy_text(&self.base),
            description: copy_text(&self.description),
            gui_name: copy_text(&self.gui_name),
            compatible_series,
            bit_mapping,
        }
    }
}

/// The override records of one document.
#[derive(Debug)]
pub struct DeviceRegistry {
    pub devices: Vec<DeviceOverride>,
}

/// The override that a list of records holds for a symbol: the last record
/// with the symbol.
pub open spec fn spec_override_for(records: Seq<DeviceOverrideView>, symbol: Seq<char>) -> Option<
    DeviceOverrideView,
>
    decreases records.len(),
{
    if records.len() == 0 {
        None
    } else if records.last().symbol == symbol {
        Some(records.last())
    } else {
        spec_override_for(records.drop_last(), symbol)
    }
}

impl DeviceRegistry {
    /// The registry of the given records.
    pub fn from_records(devices: Vec<DeviceOverride>) -> (r: DeviceRegistry)
        ensures
            r.devices == devices,
    {
        DeviceRegistry { devices }
    }

    /// Checks a document of override records.
    #[verifier::loop_isolation(false)]
    pub fn validate(records: &Vec<DeviceOverride>) -> (r: Result<(), MelsecError>)
        ensures
            r is Ok <==> valid_overrides(records.deep_view()),
            r is Err ==> r->Err_0 is Protocol,
    {
        let ghost vs = records.deep_view();
        let mut i: usize = 0;
        while i < records.len()
            invariant
                i <= records.len(),
                forall|a: int| 0 <= a < i ==> (#[trigger] vs[a]).valid(),
                forall|a: int, b: int|
                    0 <= a < b < i ==> (#[trigger] vs[a]).symbol != (#[trigger] vs[b]).symbol,
            decreases records.len() - i,
        {
            assert(vs[i as int] == records@[i as int].deep_view());
            if !records[i].is_valid() {
                return Err(MelsecError::protocol("invalid device record"));
            }
            let mut j: usize = 0;
            while j < i
                invariant
                    j <= i < records.len(),
                    forall|a: int| 0 <= a < j ==> (#[trigger] vs[a]).symbol != vs[i as int].symbol,
                decreases i - j,
            {
                assert(vs[j as int] == records@[j as int].deep_view());
                if str_eq(records[j].symbol.as_str(), records[i].symbol.as_str()) {
                    return Err(MelsecError::protocol("duplicate device symbol"));
                }
                j = j + 1;
            }
            i = i + 1;
        }
        Ok(())
    }

    /// Puts copies of the records into the slot of the overrides. Fails,
    /// and leaves the slot as it is, where overrides are registered
    /// already.
    pub fn register_overrides(&self, slot: &mut OnceSlot<Vec<DeviceOverride>>) -> (r: Result<
        (),
        MelsecError,
    >)
        ensures
            match old(slot).held() {
                None => r is Ok && final(slot).held() is Some && final(slot).held()->0.deep_view()
                    == self.devices.deep_view(),
                Some(_) => r == Err::<(), MelsecError>(MelsecError::AlreadyRegistered)
                    && final(slot).held() == old(slot).held(),
            },
    {
        if slot.is_set() {
            return Err(MelsecError::AlreadyRegistered);
        }
        let mut copies: Vec<DeviceOverride> = Vec::new();
        let mut i: usize = 0;
        while i < self.devices.len()
            invariant
                i <= self.devices.len(),
                copies.len() == i,
                forall|k: int|
                    0 <= k < i ==> (#[trigger] copies@[k]).deep_view()
                        == self.devices@[k].deep_view(),
            decreases self.devices.len() - i,
        {
            copies.push(self.devices[i].duplicate());
            i = i + 1;
        }
        assert(copies.deep_view() =~= self.devices.deep_view());
        match slot.set(copies) {
            Ok(()) => Ok(()),
            Err(_) => Err(MelsecError::AlreadyRegistered),
        }
    }

    /// A copy of the override that is registered for a symbol.
    #[verifier::loop_isolation(false)]
    pub fn get_override_by_symbol(slot: &OnceSlot<Vec<DeviceOverride>>, sym: &str) -> (r: Option<
        DeviceOverride,
    >)
        ensures
            r.deep_view() == (match slot.held() {
                Some(records) => spec_override_for(records.deep_view(), sym@),
                None => None,
            }),
    {
        let records = match slot.get() {
            Some(r) => r,
            None => {
                return None;
            },
        };
        let ghost vs = records.deep_view();
        let mut i: usize = records.len();
        assert(vs.take(i as int) =~= vs);
        while i > 0
            invariant
                i <= records.len(),
                vs == records.deep_view(),
                spec_override_for(vs, sym@) == spec_override_for(vs.take(i as int), sym@),
            decreases i,
        {
            assert(vs.take(i as int).last() == records@[i - 1].deep_view());
            assert(vs.take(i as int).drop_last() =~= vs.take(i - 1));
            if str_eq(records[i - 1].symbol.as_str(), sym) {
                return Some(records[i - 1].duplicate());
            }
            i = i - 1;
        }
        None
    }
}

} // verus!
