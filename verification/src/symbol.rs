//! The device symbols that the library names in its own code.

use vstd::prelude::*;
use vstd::string::*;
use crate::device::{device_by_symbol, index_of_symbol, upper, Device, DeviceCatalog};
use crate::error::MelsecError;
use crate::text::{ascii_upper, chars_of, str_eq};

verus! {

/// A device symbol as a value. Whether a catalog has a device for it is
/// for the catalog to say.
#[derive(Debug, Clone, Copy, PartialEq, Eq, Hash, Structural)]
pub enum Symbol {
    D,
    W,
    M,
    X,
    Y,
    L,
    F,
    V,
    B,
    TS,
    TC,
    TN,
    SN,
    CN,
    CS,
    HS,
    HR,
    AR,
    DM,
    EM,
    ZR,
    LTN,
    SW,
    CC,
    CI,
    DI,
    PI,
    SI,
    BI,
    FI,
    AI,
    AO,
}

impl Symbol {
    /// The symbol as text.
    pub open spec fn spec_as_str(self) -> Seq<char> {
        match self {
            Symbol::D => "D"@,
            Symbol::W => "W"@,
            Symbol::M => "M"@,
            Symbol::X => "X"@,
            Symbol::Y => "Y"@,
            Symbol::L => "L"@,
            Symbol::F => "F"@,
            Symbol::V => "V"@,
            Symbol::B => "B"@,
            Symbol::TS => "TS"@,
            Symbol::TC => "TC"@,
            Symbol::TN => "TN"@,
            Symbol::SN => "SN"@,
            Symbol::CN => "CN"@,
            Symbol::CS => "CS"@,
            Symbol::HS => "HS"@,
            Symbol::HR => "HR"@,
            Symbol::AR => "AR"@,
            Symbol::DM => "DM"@,
            Symbol::EM => "EM"@,
            Symbol::ZR => "ZR"@,
            Symbol::LTN => "LTN"@,
            Symbol::SW => "SW"@,
            Symbol::CC => "CC"@,
            Symbol::CI => "CI"@,
            Symbol::DI => "DI"@,
            Symbol::PI => "PI"@,
            Symbol::SI => "SI"@,
            Symbol::BI => "BI"@,
            Symbol::FI => "FI"@,
            Symbol::AI => "AI"@,
            Symbol::AO => "AO"@,
        }
    }

    /// All symbols, in the order of their declaration.
    pub open spec fn spec_all() -> Seq<Symbol> {
        seq![
            Symbol::D,
            Symbol::W,
            Symbol::M,
            Symbol::X,
            Symbol::Y,
            Symbol::L,
            Symbol::F,
            Symbol::V,
            Symbol::B,
            Symbol::TS,
            Symbol::TC,
            Symbol::TN,
            Symbol::SN,
            Symbol::CN,
            Symbol::CS,
            Symbol::HS,
            Symbol::HR,
            Symbol::AR,
            Symbol::DM,
            Symbol::EM,
            Symbol::ZR,
            Symbol::LTN,
            Symbol::SW,
            Symbol::CC,
            Symbol::CI,
            Symbol::DI,
            Symbol::PI,
            Symbol::SI,
            Symbol::BI,
            Symbol::FI,
            Symbol::AI,
            Symbol::AO,
        ]
    }

    pub fn as_str(&self) -> (r: &'static str)
        ensures
            r@ == self.spec_as_str(),
    {
        match self {
            Symbol::D => "D",
            Symbol::W => "W",
            Symbol::M => "M",
            Symbol::X => "X",
            Symbol::Y => "Y",
            Symbol::L => "L",
            Symbol::F => "F",
            Symbol::V => "V",
            Symbol::B => "B",
            Symbol::TS => "TS",
            Symbol::TC => "TC",
            Symbol::TN => "TN",
            Symbol::SN => "SN",
            Symbol::CN => "CN",
            Symbol::CS => "CS",
            Symbol::HS => "HS",
            Symbol::HR => "HR",
            Symbol::AR => "AR",
            Symbol::DM => "DM",
            Symbol::EM => "EM",
            Symbol::ZR => "ZR",
            Symbol::LTN => "LTN",
            Symbol::SW => "SW",
            Symbol::CC => "CC",
            Symbol::CI => "CI",
            Symbol::DI => "DI",
            Symbol::PI => "PI",
            Symbol::SI => "SI",
            Symbol::BI => "BI",
            Symbol::FI => "FI",
            Symbol::AI => "AI",
            Symbol::AO => "AO",
        }
    }

    /// All symbols, in the order of their declaration.
    pub fn all() -> (r: Vec<Symbol>)
        ensures
            r@ == Symbol::spec_all(),
            forall|s: Symbol| r@.contains(s),
    {
        let mut v: Vec<Symbol> = Vec::new();
        v.push(Symbol::D);
        v.push(Symbol::W);
        v.push(Symbol::M);
        v.push(Symbol::X);
        v.push(Symbol::Y);
        v.push(Symbol::L);
        v.push(Symbol::F);
        v.push(Symbol::V);
        v.push(Symbol::B);
        v.push(Symbol::TS);
        v.push(Symbol::TC);
        v.push(Symbol::TN);
        v.push(Symbol::SN);
        v.push(Symbol::CN);
        v.push(Symbol::CS);
        v.push(Symbol::HS);
        v.push(Symbol::HR);
        v.push(Symbol::AR);
        v.push(Symbol::DM);
        v.push(Symbol::EM);
        v.push(Symbol::ZR);
        v.push(Symbol::LTN);
        v.push(Symbol::SW);
        v.push(Symbol::CC);
        v.push(Symbol::CI);
        v.push(Symbol::DI);
        v.push(Symbol::PI);
        v.push(Symbol::SI);
        v.push(Symbol::BI);
        v.push(Symbol::FI);
        v.push(Symbol::AI);
        v.push(Symbol::AO);
        assert(v@ =~= Symbol::spec_all());
        assert forall|s: Symbol| v@.contains(s) by {
            Symbol::lemma_all_complete(s);
        }
        v
    }

    /// Every symbol is among all symbols.
    proof fn lemma_all_complete(s: Symbol)
        ensures
            Symbol::spec_all().contains(s),
    {
        let a = Symbol::spec_all();
        match s {
            Symbol::D => { assert(a[0] == s); },
            Symbol::W => { assert(a[1] == s); },
            Symbol::M => { assert(a[2] == s); },
            Symbol::X => { assert(a[3] == s); },
            Symbol::Y => { assert(a[4] == s); },
            Symbol::L => { assert(a[5] == s); },
            Symbol::F => { assert(a[6] == s); },
            Symbol::V => { assert(a[7] == s); },
            Symbol::B => { assert(a[8] == s); },
            Symbol::TS => { assert(a[9] == s); },
            Symbol::TC => { assert(a[10] == s); },
            Symbol::TN => { assert(a[11] == s); },
            Symbol::SN => { assert(a[12] == s); },
            Symbol::CN => { assert(a[13] == s); },
            Symbol::CS => { assert(a[14] == s); },
            Symbol::HS => { assert(a[15] == s); },
            Symbol::HR => { assert(a[16] == s); },
            Symbol::AR => { assert(a[17] == s); },
            Symbol::DM => { assert(a[18] == s); },
            Symbol::EM => { assert(a[19] == s); },
            Symbol::ZR => { assert(a[20] == s); },
            Symbol::LTN => { assert(a[21] == s); },
            Symbol::SW => { assert(a[22] == s); },
            Symbol::CC => { assert(a[23] == s); },
            Symbol::CI => { assert(a[24] == s); },
            Symbol::DI => { assert(a[25] == s); },
            Symbol::PI => { assert(a[26] == s); },
            Symbol::SI => { assert(a[27] == s); },
            Symbol::BI => { assert(a[28] == s); },
            Symbol::FI => { assert(a[29] == s); },
            Symbol::AI => { assert(a[30] == s); },
            Symbol::AO => { assert(a[31] == s); },
        }
    }

    /// Reads a symbol from its text, in either case. Fails with a protocol
    /// error where no symbol is written so.
    pub fn from_str(s: &str) -> (r: Result<Symbol, MelsecError>)
        ensures
            r is Ok <==> exists|v: Symbol| v.spec_as_str() == upper(s@),
            r is Ok ==> r->Ok_0.spec_as_str() == upper(s@),
            r is Err ==> r->Err_0 is Protocol,
    {
        let cs = chars_of(s);
        let mut up = String::new();
        let mut i: usize = 0;
        while i < cs.len()
            invariant
                i <= cs.len(),
                cs@ == s@,
                up@ == upper(s@.take(i as int)),
            decreases cs.len() - i,
        {
            up.push(ascii_upper(cs[i]));
            assert(up@ =~= upper(s@.take(i + 1)));
            i = i + 1;
        }
        assert(s@.take(i as int) =~= s@);
        let all = Symbol::all();
        let mut k: usize = 0;
        while k < all.len()
            invariant
                k <= all.len(),
                up@ == upper(s@),
                forall|v: Symbol| all@.contains(v),
                forall|j: int| 0 <= j < k ==> (#[trigger] all@[j]).spec_as_str() != upper(s@),
            decreases all.len() - k,
        {
            if str_eq(all[k].as_str(), up.as_str()) {
                return Ok(all[k]);
            }
            k = k + 1;
        }
        assert forall|v: Symbol| v.spec_as_str() != upper(s@) by {
            assert(all@.contains(v));
        }
        Err(MelsecError::protocol("unknown symbol"))
    }

    /// The device of the catalog that has this symbol. Fails with a
    /// protocol error where the catalog has none.
    pub fn to_device<'a>(&self, catalog: &'a DeviceCatalog) -> (r: Result<&'a Device, MelsecError>)
        ensures
            match index_of_symbol(catalog@, self.spec_as_str()) {
                Some(i) => r is Ok && r->Ok_0@ == catalog@[i],
                None => r is Err && r->Err_0 is Protocol,
            },
    {
        match self.try_to_device(catalog) {
            Some(d) => Ok(d),
            None => Err(MelsecError::protocol("known device symbol not found")),
        }
    }

    /// The device of the catalog that has this symbol, if there is one.
    pub fn try_to_device<'a>(&self, catalog: &'a DeviceCatalog) -> (r: Option<&'a Device>)
        ensures
            match index_of_symbol(catalog@, self.spec_as_str()) {
                Some(i) => r is Some && r->0@ == catalog@[i],
                None => r is None,
            },
    {
        device_by_symbol_enum(catalog, *self)
    }
}

impl std::str::FromStr for Symbol {
    type Err = MelsecError;

    /// Reads a symbol from its text, in either case. Fails with a protocol
    /// error where no symbol is written so.
    fn from_str(s: &str) -> (r: Result<Self, Self::Err>)
        ensures
            r is Ok <==> exists|v: Symbol| v.spec_as_str() == upper(s@),
            r is Ok ==> r->Ok_0.spec_as_str() == upper(s@),
            r is Err ==> r->Err_0 is Protocol,
    {
        Symbol::from_str(s)
    }
}

/// Looks a device up by a symbol value.
pub fn device_by_symbol_enum(catalog: &DeviceCatalog, sym: Symbol) -> (r: Option<&Device>)
    ensures
        match index_of_symbol(catalog@, sym.spec_as_str()) {
            Some(i) => r is Some && r->0@ == catalog@[i],
            None => r is None,
        },
{
    device_by_symbol(catalog, sym.as_str())
}

} // verus!
