//! The formats in which a filesystem index can be exported and imported.

use vstd::prelude::*;
use vstd::std_specs::convert::FromSpecImpl;
use crate::text::{to_uppercase, uppercase};

verus! {

/// A format for import and export.
#[derive(Debug, Clone, PartialEq, Eq, Structural)]
pub enum ConstellationDataType {
    Json,
    Yaml,
    Toml,
}

impl ConstellationDataType {
    /// The format that an upper-case name stands for; any name other than
    /// `YAML` and `TOML` stands for JSON.
    pub open spec fn named(upper: Seq<char>) -> Self {
        if upper == "YAML"@ {
            ConstellationDataType::Yaml
        } else if upper == "TOML"@ {
            ConstellationDataType::Toml
        } else {
            ConstellationDataType::Json
        }
    }

    /// The format that the upper-case name `upper` stands for.
    pub fn from_uppercase(upper: &String) -> (format: Self)
        ensures
            format == Self::named(upper@),
    {
        if *upper == "YAML".to_owned() {
            ConstellationDataType::Yaml
        } else if *upper == "TOML".to_owned() {
            ConstellationDataType::Toml
        } else {
            ConstellationDataType::Json
        }
    }
}

impl<'a> From<&'a str> for ConstellationDataType {
    /// The format named by `input`, whatever its letter case.
    fn from(input: &'a str) -> (format: Self) {
        let upper = to_uppercase(input);
        ConstellationDataType::from_uppercase(&upper)
    }
}

impl<'a> FromSpecImpl<&'a str> for ConstellationDataType {
    open spec fn obeys_from_spec() -> bool {
        true
    }

    open spec fn from_spec(input: &'a str) -> Self {
        Self::named(uppercase(input@))
    }
}

} // verus!
