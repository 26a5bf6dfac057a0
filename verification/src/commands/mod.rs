//! The decisions that the tool's commands make, apart from their I/O.
pub mod fetch;
pub mod deploy;
pub mod discover;

use vstd::prelude::*;
use crate::text::{chars_of, lowercase, range_eq, string_of, unicode_lowercase};

verus! {

/// How query results and data sources are printed.
#[derive(Debug, Clone, Copy, PartialEq, Eq, Structural)]
pub enum OutputFormat {
    Json,
    Table,
}

/// A format name other than `json` or `table`.
#[derive(Debug, Clone, Copy, PartialEq, Eq, Structural)]
pub struct InvalidOutputFormat;

impl InvalidOutputFormat {
    /// The message that lists the accepted names.
    pub fn to_string(&self) -> (r: String)
        ensures
            r@ == "Invalid format. Use: json or table"@,
    {
        let c = chars_of("Invalid format. Use: json or table");
        string_of(&c)
    }
}

/// The format a name stands for, in any letter case.
pub open spec fn format_named(s: Seq<char>) -> Option<OutputFormat> {
    if unicode_lowercase(s) == "json"@ {
        Some(OutputFormat::Json)
    } else if unicode_lowercase(s) == "table"@ {
        Some(OutputFormat::Table)
    } else {
        None
    }
}

impl OutputFormat {
    /// Reads a format name: `json` or `table`, in any letter case.
    pub fn parse_format(s: &str) -> (r: Result<OutputFormat, InvalidOutputFormat>)
        ensures
            match format_named(s@) {
                Some(f) => r == Ok::<OutputFormat, InvalidOutputFormat>(f),
                None => r == Err::<OutputFormat, InvalidOutputFormat>(InvalidOutputFormat),
            },
    {
        let lower_string = lowercase(s);
        let lower = chars_of(lower_string.as_str());
        let json = chars_of("json");
        let table = chars_of("table");
        assert(lower@.subrange(0, lower@.len() as int) =~= lower@);
        if range_eq(&lower, 0, lower.len(), &json) {
            Ok(OutputFormat::Json)
        } else if range_eq(&lower, 0, lower.len(), &table) {
            Ok(OutputFormat::Table)
        } else {
            Err(InvalidOutputFormat)
        }
    }
}

impl std::str::FromStr for OutputFormat {
    type Err = InvalidOutputFormat;

    /// Reads a format name as `parse_format` does: `json` or `table`, in any
    /// letter case.
    fn from_str(s: &str) -> (r: Result<OutputFormat, InvalidOutputFormat>)
        ensures
            match format_named(s@) {
                Some(f) => r == Ok::<OutputFormat, InvalidOutputFormat>(f),
                None => r == Err::<OutputFormat, InvalidOutputFormat>(InvalidOutputFormat),
            },
    {
        OutputFormat::parse_format(s)
    }
}

} // verus!
pub mod init;
