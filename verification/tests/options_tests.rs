use ocinoco::options::{LayerOptions, LAYER_MEDIA_TYPE};
use ocinoco::path::FsPath;

#[test]
fn defaults_to_root_and_owner_zero() {
    let options = LayerOptions::new(None, None, None);
    assert_eq!(options.root_dir, FsPath::new("/"));
    assert_eq!(options.uid, 0);
    assert_eq!(options.gid, 0);
}

#[test]
fn takes_given_settings() {
    let options = LayerOptions::new(Some("/app"), Some(1000), Some(1001));
    assert_eq!(options.root_dir, FsPath::new("/app"));
    assert_eq!(options.uid, 1000);
    assert_eq!(options.gid, 1001);
    assert_eq!(LAYER_MEDIA_TYPE, "application/vnd.oci.image.layer.v1.tar+zstd");
}
