//! End codes: their names, descriptions and categories.

use std::collections::HashMap;
use vstd::prelude::*;
use vstd::string::*;
use crate::device::{parse_bounded, spec_parse_number, NumberBase};
use crate::error::MelsecError;
use crate::text::{chars_of, range_starts_with, spec_trim, starts_with, trim_bounds};

verus! {

/// A rough class of end codes.
#[derive(Debug, Clone, Copy, PartialEq, Eq, Structural)]
pub enum ErrorCategory {
    Success,
    Addressing,
    DataFormat,
    ExecutionMode,
    BufferRange,
    Network,
    Transport,
    Icmp,
    Unknown,
}

/// What is known of one end code.
#[derive(Debug, PartialEq, Eq)]
pub struct ErrorEntryOwned {
    pub code: u16,
    pub name: Option<String>,
    pub description: Option<String>,
    pub category: Option<ErrorCategory>,
}

/// The content of an `ErrorEntryOwned`.
pub struct ErrorEntryView {
    pub code: u16,
    pub name: Option<Seq<char>>,
    pub description: Option<Seq<char>>,
    pub category: Option<ErrorCategory>,
}

impl DeepView for ErrorEntryOwned {
    type V = ErrorEntryView;

    open spec fn deep_view(&self) -> ErrorEntryView {
        ErrorEntryView {
            code: self.code,
            name: self.name.deep_view(),
            description: self.description.deep_view(),
            category: self.category,
        }
    }
}

impl ErrorEntryOwned {
    /// A copy of the entry.
    pub fn duplicate(&self) -> (r: ErrorEntryOwned)
        ensures
            r.deep_view() == self.deep_view(),
    {
        ErrorEntryOwned {
            code: self.code,
            name: match &self.name {
                Some(s) => Some(s.clone()),
                None => None,
            },
            description: match &self.description {
                Some(s) => Some(s.clone()),
                None => None,
            },
            category: self.category,
        }
    }
}

/// The code that a text stands for: a hexadecimal number after `0x`, else
/// a decimal number; in either case one that fits 16 bits. White space
/// around the text does not count.
pub open spec fn spec_parse_code(s: Seq<char>) -> Option<u16> {
    let t = spec_trim(s);
    let number = if starts_with(t, "0x"@) {
        spec_parse_number(t.skip(2), NumberBase::Hexadecimal)
    } else {
        spec_parse_number(t, NumberBase::Decimal)
    };
    match number {
        Some(v) => if v <= 0xFFFF {
            Some(v as u16)
        } else {
            None
        },
        None => None,
    }
}

/// Reads an end code from a text such as `0xC051` or `84`.
pub fn parse_code(s: &str) -> (r: Option<u16>)
    ensures
        r == spec_parse_code(s@),
{
    let cs = chars_of(s);
    assert(cs@.subrange(0, cs.len() as int) =~= s@);
    let (a, b) = trim_bounds(&cs, 0, cs.len());
    let ghost t = spec_trim(s@);
    proof {
        reveal_strlit("0x");
    }
    let number = if range_starts_with(&cs, a, b, "0x") {
        assert(cs@.subrange(a + 2, b as int) =~= t.skip(2));
        parse_bounded(&cs, a + 2, b, NumberBase::Hexadecimal, 0xFFFF)
    } else {
        parse_bounded(&cs, a, b, NumberBase::Decimal, 0xFFFF)
    };
    match number {
        Some(v) => Some(v as u16),
        None => None,
    }
}

/// The end code that an integer stands for, where it fits 16 bits.
pub fn code_from_int(v: i64) -> (r: Option<u16>)
    ensures
        r == (if 0 <= v <= 0xFFFF {
            Some(v as u16)
        } else {
            None
        }),
{
    if 0 <= v && v <= 0xFFFF {
        Some(v as u16)
    } else {
        None
    }
}

/// The entries with `e` put in under its code, in the place of the entry
/// that was there for the same code, if there was one.
pub open spec fn put_code(entries: Map<u16, ErrorEntryView>, e: ErrorEntryView) -> Map<
    u16,
    ErrorEntryView,
> {
    entries.insert(e.code, e)
}

/// The entries of `base` with those of `more` put in, in order: of two
/// entries for one code the later stands.
pub open spec fn merged(base: Map<u16, ErrorEntryView>, more: Seq<ErrorEntryView>) -> Map<
    u16,
    ErrorEntryView,
>
    decreases more.len(),
{
    if more.len() == 0 {
        base
    } else {
        put_code(merged(base, more.drop_last()), more.last())
    }
}

/// True if every entry stands under its own code.
pub open spec fn keyed_by_code(entries: Map<u16, ErrorEntryView>) -> bool {
    forall|code: u16| #[trigger] entries.contains_key(code) ==> entries[code].code == code
}

/// Putting entries into a map that is keyed by code leaves it keyed by
/// code.
pub proof fn lemma_merged_keyed(base: Map<u16, ErrorEntryView>, more: Seq<ErrorEntryView>)
    requires
        keyed_by_code(base),
    ensures
        keyed_by_code(merged(base, more)),
    decreases more.len(),
{
    if more.len() > 0 {
        lemma_merged_keyed(base, more.drop_last());
    }
}

/// The end codes of one document, in the order of the document.
#[derive(Debug)]
pub struct ErrorRegistry {
    pub codes: Vec<ErrorEntryOwned>,
}

/// The end codes that are registered, by code: none before the first
/// registration.
#[derive(Debug)]
pub struct ErrorCatalog {
    entries: Option<HashMap<u16, ErrorEntryOwned>>,
}

/// What a map of entries holds, each entry by its view.
pub open spec fn entry_views(entries: Map<u16, ErrorEntryOwned>) -> Map<u16, ErrorEntryView> {
    entries.map_values(|e: ErrorEntryOwned| e.deep_view())
}

impl View for ErrorCatalog {
    type V = Option<Map<u16, ErrorEntryView>>;

    closed spec fn view(&self) -> Option<Map<u16, ErrorEntryView>> {
        match self.entries {
            Some(m) => Some(entry_views(m@)),
            None => None,
        }
    }
}

/// Puts the entries of `more` into `base`, in order.
fn merge_into(base: &mut HashMap<u16, ErrorEntryOwned>, more: &Vec<ErrorEntryOwned>)
    requires
        keyed_by_code(entry_views(old(base)@)),
    ensures
        entry_views(final(base)@) == merged(entry_views(old(base)@), more.deep_view()),
        keyed_by_code(entry_views(final(base)@)),
{
    proof {
        lemma_merged_keyed(entry_views(base@), more.deep_view());
    }
    let ghost start = entry_views(base@);
    let ghost all = more.deep_view();
    let mut i: usize = 0;
    assert(all.take(0) =~= Seq::<ErrorEntryView>::empty());
    while i < more.len()
        invariant
            i <= more.len(),
            all == more.deep_view(),
            entry_views(base@) == merged(start, all.take(i as int)),
        decreases more.len() - i,
    {
        let ghost before_views = entry_views(base@);
        proof {
            assert(all.take(i + 1).drop_last() =~= all.take(i as int));
            assert(all.take(i + 1).last() == more@[i as int].deep_view());
        }
        let e = more[i].duplicate();
        let ghost ev = e.deep_view();
        base.insert(e.code, e);
        assert(entry_views(base@) =~= put_code(before_views, ev));
        i = i + 1;
    }
    assert(all.take(i as int) =~= all);
}

impl ErrorCatalog {
    #[verifier::type_invariant]
    spec fn inv(self) -> bool {
        match self.entries {
            Some(m) => keyed_by_code(entry_views(m@)),
            None => true,
        }
    }

    /// A catalog in which nothing is registered yet.
    pub fn new() -> (r: ErrorCatalog)
        ensures
            r@ is None,
    {
        ErrorCatalog { entries: None }
    }

    /// True once codes have been registered.
    pub fn is_registered(&self) -> (r: bool)
        ensures
            r == self@ is Some,
    {
        self.entries.is_some()
    }

    /// The entry for the given code. It carries that code.
    pub fn entry(&self, code: u16) -> (r: Option<&ErrorEntryOwned>)
        ensures
            r.deep_view() == spec_entry_for(self@, code),
            r matches Some(e) ==> e.code == code,
    {
        proof {
            use_type_invariant(self);
        }
        match &self.entries {
            None => None,
            Some(m) => m.get(&code),
        }
    }
}

/// The entry that a catalog has for a code.
pub open spec fn spec_entry_for(catalog: Option<Map<u16, ErrorEntryView>>, code: u16) -> Option<
    ErrorEntryView,
> {
    match catalog {
        Some(m) => if m.contains_key(code) {
            Some(m[code])
        } else {
            None
        },
        None => None,
    }
}

impl ErrorRegistry {
    /// The registry of the given entries.
    pub fn from_entries(codes: Vec<ErrorEntryOwned>) -> (r: ErrorRegistry)
        ensures
            r.codes == codes,
    {
        ErrorRegistry { codes }
    }

    /// Registers the codes in a catalog in which nothing is registered
    /// yet. Fails, and leaves the catalog as it is, where codes are
    /// registered already. Of two entries for one code the later stands.
    pub fn register_codes(&self, catalog: &mut ErrorCatalog) -> (r: Result<(), MelsecError>)
        ensures
            match old(catalog)@ {
                Some(_) => r == Err::<(), MelsecError>(MelsecError::AlreadyRegistered)
                    && final(catalog)@ == old(catalog)@,
                None => r is Ok && final(catalog)@ == Some(
                    merged(Map::empty(), self.codes.deep_view()),
                ),
            },
    {
        if catalog.entries.is_some() {
            return Err(MelsecError::AlreadyRegistered);
        }
        let mut entries: HashMap<u16, ErrorEntryOwned> = HashMap::new();
        assert(entry_views(entries@) =~= Map::<u16, ErrorEntryView>::empty());
        merge_into(&mut entries, &self.codes);
        *catalog = ErrorCatalog { entries: Some(entries) };
        Ok(())
    }

    /// Registers the codes, adding them to those that are registered
    /// already. An entry takes the place of an earlier one for the same
    /// code.
    pub fn register_or_merge(&self, catalog: &mut ErrorCatalog) -> (r: Result<(), MelsecError>)
        ensures
            r is Ok,
            final(catalog)@ == Some(
                merged(
                    match old(catalog)@ {
                        Some(es) => es,
                        None => Map::empty(),
                    },
                    self.codes.deep_view(),
                ),
            ),
    {
        let mut held = ErrorCatalog { entries: None };
        std::mem::swap(catalog, &mut held);
        proof {
            use_type_invariant(&held);
        }
        let mut entries: HashMap<u16, ErrorEntryOwned> = match held.entries {
            Some(es) => es,
            None => {
                let m: HashMap<u16, ErrorEntryOwned> = HashMap::new();
                assert(entry_views(m@) =~= Map::<u16, ErrorEntryView>::empty());
                m
            },
        };
        merge_into(&mut entries, &self.codes);
        *catalog = ErrorCatalog { entries: Some(entries) };
        Ok(())
    }
}

/// The description that is registered for a code.
pub fn code_description(catalog: &ErrorCatalog, code: u16) -> (r: Option<String>)
    ensures
        r.deep_view() == (match spec_entry_for(catalog@, code) {
            Some(e) => e.description,
            None => None,
        }),
{
    match catalog.entry(code) {
        Some(e) => match &e.description {
            Some(s) => Some(s.clone()),
            None => None,
        },
        None => None,
    }
}

/// The name that is registered for a code.
pub fn code_name(catalog: &ErrorCatalog, code: u16) -> (r: Option<String>)
    ensures
        r.deep_view() == (match spec_entry_for(catalog@, code) {
            Some(e) => e.name,
            None => None,
        }),
{
    match catalog.entry(code) {
        Some(e) => match &e.name {
            Some(s) => Some(s.clone()),
            None => None,
        },
        None => None,
    }
}

/// The category that is registered for a code; `Unknown` where none is.
pub fn code_category(catalog: &ErrorCatalog, code: u16) -> (r: ErrorCategory)
    ensures
        r == (match spec_entry_for(catalog@, code) {
            Some(e) => match e.category {
                Some(c) => c,
                None => ErrorCategory::Unknown,
            },
            None => ErrorCategory::Unknown,
        }),
{
    match catalog.entry(code) {
        Some(e) => match e.category {
            Some(c) => c,
            None => ErrorCategory::Unknown,
        },
        None => ErrorCategory::Unknown,
    }
}

/// True for the codes from `0xC000` to `0xC0FF`.
pub fn is_network_error(code: u16) -> (r: bool)
    ensures
        r == (0xC000 <= code <= 0xC0FF),
{
    0xC000 <= code && code <= 0xC0FF
}

/// True for the codes from `0x00A0` on.
pub fn is_buffer_error(code: u16) -> (r: bool)
    ensures
        r == (code >= 0x00A0),
{
    code >= 0x00A0
}

/// True for the codes from `0xC030` to `0xC04F`.
pub fn is_transport_error(code: u16) -> (r: bool)
    ensures
        r == (0xC030 <= code <= 0xC04F),
{
    0xC030 <= code && code <= 0xC04F
}

/// True for the codes from `0xC044` to `0xC048`.
pub fn is_icmp_error(code: u16) -> (r: bool)
    ensures
        r == (0xC044 <= code <= 0xC048),
{
    0xC044 <= code && code <= 0xC048
}

} // verus!
