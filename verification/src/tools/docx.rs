//! Parameters of the Word tools.

use vstd::prelude::*;
use crate::docs::docx::{create, create_post, DocxWriteResult};
use crate::docs::error::DocsError;
use crate::docs::strings::{chars_of, string_from_chars};
pub use crate::docs::xml::Replacement;

verus! {

/// A Word document to read (`.docx`).
pub struct DocxPathParams {
    pub path: String,
}

/// A Word document to convert to Markdown, and where to write the Markdown (optional).
pub struct DocxToMarkdownParams {
    pub path: String,
    pub output_path: Option<String>,
}

/// A new Word document: where it goes, its content, and the content's format (`text` or
/// `markdown`).
pub struct DocxCreateParams {
    pub output_path: String,
    pub content: String,
    pub format: Option<String>,
}

/// Replacements to make in a Word document, and where the result goes (the source itself
/// when none is given).
pub struct DocxReplaceParams {
    pub path: String,
    pub replacements: Vec<Replacement>,
    pub output_path: Option<String>,
}

impl DocxCreateParams {
    /// The content format asked for, `text` when none is given.
    pub fn format_or_default(&self) -> (f: String)
        ensures
            f@ == match self.format {
                Some(s) => s@,
                None => "text"@,
            },
    {
        match &self.format {
            Some(s) => string_from_chars(&chars_of(s.as_str())),
            None => string_from_chars(&chars_of("text")),
        }
    }

    /// The format a create uses: the one given, else `text`.
    pub open spec fn format_spec(&self) -> Seq<char> {
        match self.format {
            Some(s) => s@,
            None => "text"@,
        }
    }

    /// Creates the document these parameters describe (`target_exists` tells whether
    /// `output_path` exists already): `create` with the given format, or with `text` when
    /// none is given. Returns the target and the file's bytes.
    pub fn create_document(&self, target_exists: bool) -> (r: Result<(DocxWriteResult, Vec<u8>), DocsError>)
        ensures
            create_post(self.output_path@, target_exists, self.content@, self.format_spec(), r),
            self.format is None ==> create_post(self.output_path@, target_exists, self.content@, "text"@, r),
    {
        let format = self.format_or_default();
        create(self.output_path.as_str(), target_exists, self.content.as_str(), format.as_str())
    }
}

} // verus!
