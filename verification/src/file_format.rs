use vstd::prelude::*;

verus! {

use crate::text::str_eq;

/// The serialized forms a registry can travel in.
#[derive(Debug, Clone, Copy, PartialEq, Eq, Structural)]
pub enum Format {
    Xml,
    Json,
    Toml,
    Yaml,
    Ron,
}

/// The error of meeting a file extension no format claims.
#[derive(Debug, Clone)]
pub enum FormatError {
    UnknownExtension(String),
}

/// The format a file extension names, if any; `yml` and `yaml` both name
/// YAML.
pub open spec fn format_of_extension(s: Seq<char>) -> Option<Format> {
    if s == "xml"@ {
        Some(Format::Xml)
    } else if s == "json"@ {
        Some(Format::Json)
    } else if s == "toml"@ {
        Some(Format::Toml)
    } else if s == "yml"@ || s == "yaml"@ {
        Some(Format::Yaml)
    } else if s == "ron"@ {
        Some(Format::Ron)
    } else {
        None
    }
}

impl Format {
    /// The format a file extension names; an unclaimed extension is handed
    /// back in the error.
    pub fn from_file_extension(ext: &str) -> (r: Result<Format, FormatError>)
        ensures
            (r is Ok) == (format_of_extension(ext@) is Some),
            r matches Ok(f) ==> format_of_extension(ext@) == Some(f),
            r matches Err(FormatError::UnknownExtension(e)) && e@ == ext@ || r is Ok,
    {
        if str_eq(ext, "xml") {
            Ok(Format::Xml)
        } else if str_eq(ext, "json") {
            Ok(Format::Json)
        } else if str_eq(ext, "toml") {
            Ok(Format::Toml)
        } else if str_eq(ext, "yml") || str_eq(ext, "yaml") {
            Ok(Format::Yaml)
        } else if str_eq(ext, "ron") {
            Ok(Format::Ron)
        } else {
            Err(FormatError::UnknownExtension(String::from_str(ext)))
        }
    }
}

} // verus!
