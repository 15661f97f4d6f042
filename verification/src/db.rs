//! Rows of the file cache.

use vstd::prelude::*;
use crate::models::{media_kind_from_name, MediaKind};

verus! {

/// A file already sent to Telegram for a link, kind, quality and position.
#[derive(Debug, Clone)]
pub struct CachedFile {
    pub url: String,
    pub media_kind: String,
    pub quality: String,
    pub item_index: i64,
    pub file_type: String,
    pub file_id: String,
    pub file_unique_id: Option<String>,
}

impl CachedFile {
    /// How the file is sent again: by its stored file type.
    pub fn kind(&self) -> (r: MediaKind)
        ensures
            r == media_kind_from_name(self.file_type@),
    {
        MediaKind::from_str(self.file_type.as_str())
    }
}

} // verus!
