//! The formats records can be exported in.

use crate::error::SaturnError;
use crate::text::{chars_are, lowercase, to_chars, to_lowercase};
use vstd::prelude::*;

verus! {

/// A format records can be written in.
#[derive(Clone, Copy, Debug, PartialEq, Eq, Structural)]
pub enum ExportFormat {
    JSON,
    YAML,
    CBOR,
}

impl ExportFormat {
    /// The format named `s`, in any case: `json`, `yaml` or `cbor`.
    pub fn parse_format(s: &str) -> (res: Result<ExportFormat, SaturnError>)
        ensures
            res == (if lowercase(s@) == "json"@ {
                Ok::<ExportFormat, SaturnError>(ExportFormat::JSON)
            } else if lowercase(s@) == "yaml"@ {
                Ok(ExportFormat::YAML)
            } else if lowercase(s@) == "cbor"@ {
                Ok(ExportFormat::CBOR)
            } else {
                Err(SaturnError::InvalidExportFormat)
            }),
    {
        let l = to_lowercase(s);
        let c = to_chars(l.as_str());
        if chars_are(c.as_slice(), "json") {
            Ok(ExportFormat::JSON)
        } else if chars_are(c.as_slice(), "yaml") {
            Ok(ExportFormat::YAML)
        } else if chars_are(c.as_slice(), "cbor") {
            Ok(ExportFormat::CBOR)
        } else {
            Err(SaturnError::InvalidExportFormat)
        }
    }

    /// The format's name.
    pub fn to_string(&self) -> (res: String)
        ensures
            res@ == match self {
                ExportFormat::JSON => "json"@,
                ExportFormat::YAML => "yaml"@,
                ExportFormat::CBOR => "cbor"@,
            },
    {
        match self {
            ExportFormat::JSON => "json".to_owned(),
            ExportFormat::YAML => "yaml".to_owned(),
            ExportFormat::CBOR => "cbor".to_owned(),
        }
    }
}

} // verus!
