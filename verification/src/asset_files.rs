//! Binary asset files (textures) kept under the project's resources directory.

use vstd::prelude::*;
use crate::text::{concat2, str_equal};

verus! {

/// Directory holding imported asset files.
pub const RESOURCE_DIR: &'static str = "resources";

/// The kind of an asset file.
#[derive(Debug, Clone, Copy, PartialEq, Eq, Structural)]
pub enum AssetFileKind {
    Texture,
}

/// The stable identity of an asset file: its path under the resources directory.
#[derive(Debug, Clone, PartialEq, Eq, PartialOrd, Ord, Hash)]
pub struct AssetFileId(pub String);

impl AssetFileId {
    /// The id `id`.
    pub fn new(id: &str) -> (r: AssetFileId)
        ensures
            r.0@ == id@,
    {
        AssetFileId(String::from_str(id))
    }

    /// The id as text.
    pub fn as_str(&self) -> (r: &str)
        ensures
            r@ == self.0@,
    {
        self.0.as_str()
    }
}

/// An asset file: its id, path, display name, kind, MIME type and size.
#[derive(Debug, Clone, PartialEq)]
pub struct AssetFile {
    pub id: AssetFileId,
    pub path: String,
    pub name: String,
    pub kind: AssetFileKind,
    pub mime_type: String,
    pub size_bytes: u64,
}

/// The path of the asset file with id `id`: the resources directory, a slash, the id.
pub fn asset_file_path_from_id(id: &str) -> (r: String)
    ensures
        r@ == "resources/"@ + id@,
{
    concat2("resources/", id)
}

/// The MIME types accepted for textures.
pub open spec fn supported_mimes() -> Seq<Seq<char>> {
    seq!["image/png"@, "image/jpeg"@, "image/gif"@, "image/webp"@, "image/svg+xml"@]
}

/// Whether `mime` is a MIME type accepted for textures.
pub fn is_supported_mime(mime: &str) -> (r: bool)
    ensures
        r == supported_mimes().contains(mime@),
{
    let r = str_equal(mime, "image/png") || str_equal(mime, "image/jpeg") || str_equal(mime, "image/gif")
        || str_equal(mime, "image/webp") || str_equal(mime, "image/svg+xml");
    proof {
        let s = supported_mimes();
        if r {
            if mime@ == "image/png"@ { assert(s[0] == mime@); }
            if mime@ == "image/jpeg"@ { assert(s[1] == mime@); }
            if mime@ == "image/gif"@ { assert(s[2] == mime@); }
            if mime@ == "image/webp"@ { assert(s[3] == mime@); }
            if mime@ == "image/svg+xml"@ { assert(s[4] == mime@); }
        } else if s.contains(mime@) {
            let i = choose|i: int| 0 <= i < s.len() && s[i] == mime@;
            assert(i == 0 || i == 1 || i == 2 || i == 3 || i == 4);
        }
    }
    r
}

} // verus!
