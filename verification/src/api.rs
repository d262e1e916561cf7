//! The request and response shapes of the service surface. The HTTP
//! layer itself lives outside the library and hands these plain values in
//! and out.

use vstd::prelude::*;

verus! {

/// Which archive rendition a download job fetches.
#[derive(PartialEq, Eq, Structural, Clone, Copy, Debug)]
pub enum DownloadType {
    Original,
    Resample,
}

impl DownloadType {
    /// The rendition's name, as job logs print it.
    pub fn name(&self) -> (r: &'static str)
        ensures
            r@ == (match *self {
                DownloadType::Original => "Original"@,
                DownloadType::Resample => "Resample"@,
            }),
    {
        match self {
            DownloadType::Original => "Original",
            DownloadType::Resample => "Resample",
        }
    }

    /// Whether the original (unresampled) archive is requested.
    pub fn is_original(&self) -> (r: bool)
        ensures
            r == (*self == DownloadType::Original),
    {
        match self {
            DownloadType::Original => true,
            DownloadType::Resample => false,
        }
    }
}

/// A download submission: the gallery page address and the rendition.
pub struct DownloadRequest {
    pub url: String,
    pub download_type: DownloadType,
}

/// A snapshot of the in-flight jobs.
pub struct ActiveTasksResponse {
    pub count: usize,
    pub tasks: Vec<String>,
}

impl ActiveTasksResponse {
    /// Builds the snapshot; the count always equals the number of keys.
    pub fn from_tasks(tasks: Vec<String>) -> (r: ActiveTasksResponse)
        ensures
            r.count == r.tasks@.len(),
            r.tasks == tasks,
    {
        let count = tasks.len();
        ActiveTasksResponse { count, tasks }
    }
}

/// An import submission: the gallery page address that identifies the
/// metadata, and the local archive file to take instead of fetching.
pub struct ImportRequest {
    pub url: String,
    pub path: String,
}

/// The outcome of a metadata-update pass.
pub struct MetadataUpdateResponse {
    pub success: bool,
    pub message: String,
}

/// A single translation lookup.
pub struct TagQueryRequest {
    pub namespace: String,
    pub raw_tag: String,
}

/// The looked-up translation, absent when the cache holds none.
pub struct TagQueryResponse {
    pub translated_name: Option<String>,
}

/// A request to re-fetch one catalog record's metadata.
pub struct BookMetadataReplaceRequest {
    pub url: String,
}

/// The outcome of a metadata replacement.
pub struct BookMetadataReplaceResponse {
    pub success: bool,
    pub message: String,
}

} // verus!
