use vstd::prelude::*;

use crate::text::{lower_of, lowercase, text_eq};

verus! {

/// Formats of the persisted files.
#[derive(Clone, Copy, Debug, PartialEq, Eq, Structural)]
pub enum FileFormat {
    Json,
    Text,
    Png,
    Toml,
}

pub open spec fn extension_of(f: FileFormat) -> Seq<char> {
    match f {
        FileFormat::Json => "json"@,
        FileFormat::Png => "png"@,
        FileFormat::Text => "txt"@,
        FileFormat::Toml => "toml"@,
    }
}

/// The format whose extension is `e`, which is already lower case.
pub open spec fn format_of_extension(e: Seq<char>) -> Option<FileFormat> {
    if e == "json"@ {
        Some(FileFormat::Json)
    } else if e == "png"@ {
        Some(FileFormat::Png)
    } else if e == "txt"@ {
        Some(FileFormat::Text)
    } else if e == "toml"@ {
        Some(FileFormat::Toml)
    } else {
        None
    }
}

impl FileFormat {
    pub fn to_extension(&self) -> (r: &'static str)
        ensures
            r@ == extension_of(*self),
    {
        match self {
            FileFormat::Json => "json",
            FileFormat::Png => "png",
            FileFormat::Text => "txt",
            FileFormat::Toml => "toml",
        }
    }

    /// The format of a lower-case extension.
    pub fn from_lowercase_extension(e: &str) -> (r: Option<FileFormat>)
        ensures
            r == format_of_extension(e@),
    {
        if text_eq(e, "json") {
            Some(FileFormat::Json)
        } else if text_eq(e, "png") {
            Some(FileFormat::Png)
        } else if text_eq(e, "txt") {
            Some(FileFormat::Text)
        } else if text_eq(e, "toml") {
            Some(FileFormat::Toml)
        } else {
            None
        }
    }

    /// The format of an extension, ignoring case.
    pub fn from_extension(ext: &str) -> (r: Option<FileFormat>)
        ensures
            r == format_of_extension(lower_of(ext@)),
    {
        let e = lowercase(ext);
        FileFormat::from_lowercase_extension(e.as_str())
    }
}

} // verus!
