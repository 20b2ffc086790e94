use vstd::prelude::*;

use crate::strutil::str_eq;

verus! {

/// Where a run's summary goes: a file of comma-separated rows, the
/// scrollable table, or a plain printout.
#[derive(Debug, Clone, Copy, PartialEq, Eq, Structural)]
pub enum OutputType {
    CSV,
    TABLE,
    POLAR,
}

/// The output format a command-line word names, if any.
pub open spec fn output_type_spec(s: Seq<char>) -> Option<OutputType> {
    if s == "csv"@ {
        Some(OutputType::CSV)
    } else if s == "table"@ {
        Some(OutputType::TABLE)
    } else if s == "polar"@ {
        Some(OutputType::POLAR)
    } else {
        None
    }
}

impl OutputType {
    /// Reads an output format from its command-line word.
    pub fn from_str(s: &str) -> (r: Option<OutputType>)
        ensures
            r == output_type_spec(s@),
    {
        if str_eq(s, "csv") {
            Some(OutputType::CSV)
        } else if str_eq(s, "table") {
            Some(OutputType::TABLE)
        } else if str_eq(s, "polar") {
            Some(OutputType::POLAR)
        } else {
            None
        }
    }
}

} // verus!
