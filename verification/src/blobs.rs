//! Reading content-addressed bytes back out.
use vstd::prelude::*;
use crate::error::{refusal, AppError, ErrorModel};
use crate::run::history::opt_bytes;


verus! {

/// A stored blob: inline, or spilled to disk.
#[derive(Debug)]
pub struct Blob {
    pub data: Option<Vec<u8>>,
    pub storage_path: Option<String>,
}

/// Where a blob's bytes are.
#[derive(Debug)]
pub enum BlobSource {
    /// Nowhere. A row with neither data nor a path is missing rather than
    /// empty: a present-but-blank exchange is the one answer that hides a
    /// storage problem.
    Missing,
    Inline(Vec<u8>),
    Spilled(String),
}

/// Where the bytes behind a digest are.
pub fn read_blob(record: Option<Blob>) -> (r: BlobSource)
    ensures
        match record {
            None => r is Missing,
            Some(blob) => match (blob.data, blob.storage_path) {
                (Some(data), _) => r matches BlobSource::Inline(bytes) && bytes@ == data@,
                (None, Some(path)) => r matches BlobSource::Spilled(text) && text@ == path@,
                (None, None) => r is Missing,
            },
        },
{
    match record {
        None => BlobSource::Missing,
        Some(blob) => match blob.data {
            Some(data) => BlobSource::Inline(data),
            None => match blob.storage_path {
                Some(path) => BlobSource::Spilled(path),
                None => BlobSource::Missing,
            },
        },
    }
}

/// The bytes of a spilled blob, once its file was read: one that cannot be is
/// a failure of the service's own, not a missing blob.
pub fn spilled(bytes: Option<Vec<u8>>) -> (r: Result<Option<Vec<u8>>, AppError>)
    ensures
        match bytes {
            Some(content) => r matches Ok(found) && opt_bytes(found) == Some(content@),
            None => refusal(r) == Some(ErrorModel::Internal),
        },
{
    match bytes {
        Some(content) => Ok(Some(content)),
        None => Err(AppError::Internal),
    }
}

} // verus!
