//! The controller families and their models.

use vstd::prelude::*;
use crate::text::str_eq;

verus! {

/// The controller family. It decides subcommands and field widths.
#[derive(Clone, Copy, Debug, PartialEq, Eq, Structural)]
pub enum PLCSeries {
    Q,
    R,
}

impl PLCSeries {
    /// The family that a one-letter name stands for, in either case.
    pub open spec fn spec_from_str(s: Seq<char>) -> Option<PLCSeries> {
        if s == "Q"@ || s == "q"@ {
            Some(PLCSeries::Q)
        } else if s == "R"@ || s == "r"@ {
            Some(PLCSeries::R)
        } else {
            None
        }
    }

    /// Reads a family from a name such as "Q" or "r".
    pub fn from_str(s: &str) -> (r: Option<PLCSeries>)
        ensures
            r == PLCSeries::spec_from_str(s@),
    {
        if str_eq(s, "Q") || str_eq(s, "q") {
            Some(PLCSeries::Q)
        } else if str_eq(s, "R") || str_eq(s, "r") {
            Some(PLCSeries::R)
        } else {
            None
        }
    }

    pub open spec fn spec_as_str(self) -> Seq<char> {
        match self {
            PLCSeries::Q => "Q"@,
            PLCSeries::R => "R"@,
        }
    }

    pub fn as_str(&self) -> (r: &'static str)
        ensures
            r@ == self.spec_as_str(),
    {
        match self {
            PLCSeries::Q => "Q",
            PLCSeries::R => "R",
        }
    }
}

impl std::str::FromStr for PLCSeries {
    type Err = ();

    /// Reads a family from a name such as "Q" or "r"; any other text is
    /// an error.
    fn from_str(s: &str) -> Result<Self, Self::Err>
        returns
            (match PLCSeries::spec_from_str(s@) {
                Some(v) => Ok::<PLCSeries, ()>(v),
                None => Err::<PLCSeries, ()>(()),
            }),
    {
        match PLCSeries::from_str(s) {
            Some(v) => Ok(v),
            None => Err(()),
        }
    }
}

/// Models of the Q family.
#[derive(Clone, Copy, Debug, PartialEq, Eq)]
pub enum MelsecQSeriesModelName {
    Q100UDEHCPU,
    Q50UDEHCPU,
    Q26UDEHCPU,
    Q26UDHCPU,
    Q20UDEHCPU,
    Q20UDHCPU,
    Q13UDEHCPU,
    Q13UDHCPU,
    Q10UDEHCPU,
    Q10UDHCPU,
    Q06UDEHCPU,
    Q06UDHCPU,
    Q04UDEHCPU,
    Q04UDHCPU,
    Q03UDECPU,
    Q03UDCPU,
    Q02UCPU,
    Q01UCPU,
    Q00UCPU,
    Q00UJCPU,
}

/// Models of the R family.
pub enum MelsecRSeriesModelName {
    R00CPU,
    R01CPU,
    R02CPU,
    R04CPU,
    R08CPU,
    R16CPU,
    R32CPU,
    R120CPU,
    R04ENCPU,
    R08ENCPU,
    R16ENCPU,
    R32ENCPU,
    R120ENCPU,
    R08PCPU,
    R16PCPU,
    R32PCPU,
    R120PCPU,
}

} // verus!
