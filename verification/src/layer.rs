//! The layer as it is shipped: the archive compressed with zstd, with the
//! digest of the archive (the diff ID) and the digest of the compressed blob.
use vstd::prelude::*;

use crate::digest::{digest_prefix, hex_lower, sha256_digest, sha256_digest_text};

verus! {

/// The bytes that `zstd::stream::encode_all` gives for `data` at `level`.
pub uninterp spec fn zstd_encoded(data: Seq<u8>, level: i32) -> Seq<u8>;

/// Compresses `data` into one zstd frame with `zstd::stream::encode_all`.
/// The bytes are named by `zstd_encoded`; when the encoder fails is not stated.
#[verifier::external_body]
fn zstd_encode(data: &[u8], level: i32) -> (res: Result<Vec<u8>, std::io::Error>)
    ensures
        res matches Ok(b) ==> b@ == zstd_encoded(data@, level),
{
    zstd::stream::encode_all(data, level)
}

/// The zstd compression level of layers (0 asks zstd for its default).
pub const LAYER_ZSTD_LEVEL: i32 = 0;

/// Why a layer could not be made.
#[derive(Debug)]
pub enum LayerError {
    /// The zstd encoder failed.
    Compress(std::io::Error),
}

/// A compressed layer and its two digests.
pub struct LayerBlob {
    /// The archive compressed with zstd.
    pub blob: Vec<u8>,
    /// `"sha256:"` and the digest of the uncompressed archive.
    pub diff_id: String,
    /// `"sha256:"` and the digest of `blob`.
    pub digest: String,
}

/// The digest text of some bytes.
pub open spec fn digest_text_of(data: Seq<u8>) -> Seq<char> {
    digest_prefix() + hex_lower(sha256_digest(data))
}

/// Compresses a tar archive into a layer blob and computes its diff ID (the
/// digest of the archive) and its digest (the digest of the blob).
pub fn layer_blob(tar: &[u8]) -> (res: Result<LayerBlob, LayerError>)
    ensures
        res matches Ok(l) ==> {
            &&& l.blob@ == zstd_encoded(tar@, LAYER_ZSTD_LEVEL)
            &&& l.diff_id@ == digest_text_of(tar@)
            &&& l.digest@ == digest_text_of(l.blob@)
        },
{
    let blob = match zstd_encode(tar, LAYER_ZSTD_LEVEL) {
        Ok(blob) => blob,
        Err(e) => return Err(LayerError::Compress(e)),
    };
    let diff_id = sha256_digest_text(tar);
    let digest = sha256_digest_text(blob.as_slice());
    Ok(LayerBlob { blob, diff_id, digest })
}

} // verus!
