//! Parameters of the tools for embedded objects.

use vstd::prelude::*;

verus! {

/// A host document whose embedded objects are listed.
pub struct ListEmbeddingsParams {
    pub path: String,
}

/// An embedded object to extract (by `id` or `name`) and where it goes (`output_path`, or
/// a folder `output_dir`).
pub struct ExtractEmbeddingParams {
    pub path: String,
    pub id: Option<String>,
    pub name: Option<String>,
    pub output_path: Option<String>,
    pub output_dir: Option<String>,
}

} // verus!
