//! Parameters of the text tools.

use vstd::prelude::*;
use crate::docs::strings::{chars_of, string_from_chars};
use crate::docs::text::ReadTextOptions;

verus! {

/// A text file to read, with an optional forced encoding and line window.
pub struct TextReadParams {
    pub path: String,
    pub encoding: Option<String>,
    pub limit: Option<usize>,
    pub offset: Option<usize>,
}

/// Text to write: the target (`output_path`, else `path`), content, encoding, and whether
/// an existing file may be replaced.
pub struct TextWriteParams {
    pub path: Option<String>,
    pub output_path: Option<String>,
    pub content: String,
    pub encoding: Option<String>,
    pub overwrite: Option<bool>,
}

/// A text file to describe.
pub struct TextInfoParams {
    pub path: String,
}

fn copy_opt(o: &Option<String>) -> (r: Option<String>)
    ensures
        match (o, r) {
            (Some(a), Some(b)) => a@ == b@,
            (None, None) => true,
            _ => false,
        },
{
    match o {
        Some(s) => Some(string_from_chars(&chars_of(s.as_str()))),
        None => None,
    }
}

impl TextReadParams {
    /// The read options these parameters ask for.
    pub fn options(&self) -> (o: ReadTextOptions)
        ensures
            o.limit == self.limit,
            o.offset == self.offset,
            match (self.encoding, o.encoding) {
                (Some(a), Some(b)) => a@ == b@,
                (None, None) => true,
                _ => false,
            },
    {
        ReadTextOptions { encoding: copy_opt(&self.encoding), limit: self.limit, offset: self.offset }
    }
}

/// The answer to a write that names no file.
pub open spec fn missing_target_message() -> Seq<char> {
    "必须提供 path 或 output_path"@
}

/// The file a write goes to: `output_path`, else `path`; none when that is missing or empty.
pub open spec fn write_target_spec(path: Option<Seq<char>>, output_path: Option<Seq<char>>) -> Option<Seq<char>> {
    let chosen = match output_path {
        Some(p) => p,
        None => match path {
            Some(p) => p,
            None => Seq::empty(),
        },
    };
    if chosen.len() == 0 {
        None
    } else {
        Some(chosen)
    }
}

impl TextWriteParams {
    /// The file the text goes to, or, when neither `output_path` nor `path` names one, the
    /// message the tool answers with.
    pub fn target(&self) -> (t: Result<String, String>)
        ensures
            match t {
                Ok(s) => write_target_spec(
                    match self.path { Some(p) => Some(p@), None => None },
                    match self.output_path { Some(p) => Some(p@), None => None },
                ) == Some(s@),
                Err(m) => write_target_spec(
                    match self.path { Some(p) => Some(p@), None => None },
                    match self.output_path { Some(p) => Some(p@), None => None },
                ) is None && m@ == missing_target_message(),
            },
    {
        let chosen = match &self.output_path {
            Some(p) => chars_of(p.as_str()),
            None => match &self.path {
                Some(p) => chars_of(p.as_str()),
                None => Vec::new(),
            },
        };
        if chosen.len() == 0 {
            Err(string_from_chars(&chars_of("必须提供 path 或 output_path")))
        } else {
            Ok(string_from_chars(&chosen))
        }
    }

    /// Whether an existing target may be replaced (no, unless asked).
    pub fn overwrite_allowed(&self) -> (b: bool)
        ensures
            b == match self.overwrite {
                Some(v) => v,
                None => false,
            },
    {
        match self.overwrite {
            Some(v) => v,
            None => false,
        }
    }
}

} // verus!
