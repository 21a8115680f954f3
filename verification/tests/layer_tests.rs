use ocinoco::archive::TarDestination;
use ocinoco::digest::format_digest;
use ocinoco::layer::layer_blob;
use ocinoco::path::FsPath;
use sha2::{Digest, Sha256};

#[test]
fn compresses_the_archive_and_digests_both_forms() {
    let mut destination = TarDestination::new(1000, 1001);
    destination
        .write(&FsPath::new("/app/bin/tool"), b"#!/bin/sh\necho tool\n", 0o755)
        .unwrap();
    let tar = destination.finish();

    let layer = layer_blob(&tar).unwrap();

    assert_ne!(layer.blob, tar);
    assert_eq!(zstd::stream::decode_all(layer.blob.as_slice()).unwrap(), tar);
    assert_eq!(layer.diff_id, format_digest(Sha256::digest(&tar).into()));
    assert_eq!(layer.digest, format_digest(Sha256::digest(&layer.blob).into()));
    assert_ne!(layer.diff_id, layer.digest);
}
