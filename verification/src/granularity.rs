//! The grouping resolution of the summary table.

use vstd::prelude::*;

verus! {

/// How runs are grouped: one group per calendar day and conclusion, or one
/// group per conclusion over the whole history.
#[derive(Debug, Clone, Copy, PartialEq, Eq, Structural)]
pub enum Granularity {
    Daily,
    Total,
}

impl Granularity {
    /// The lower-case name of the granularity, as it is written on the command line.
    pub open spec fn name(self) -> Seq<char> {
        match self {
            Granularity::Daily => "daily"@,
            Granularity::Total => "total"@,
        }
    }

    /// Returns the lower-case name of the granularity.
    pub fn label(&self) -> (text: String)
        ensures
            text@ == self.name(),
    {
        match self {
            Granularity::Daily => "daily".to_owned(),
            Granularity::Total => "total".to_owned(),
        }
    }
}

} // verus!
