//! The settings that both commands take for the layer they build.
use vstd::prelude::*;

use crate::path::{parse_path, root_view, FsPath, PathView};

verus! {

/// Where the files go in the layer and who owns them there.
pub struct LayerOptions {
    pub root_dir: FsPath,
    pub uid: u64,
    pub gid: u64,
}

/// The media type of a zstd-compressed layer.
pub const LAYER_MEDIA_TYPE: &'static str = "application/vnd.oci.image.layer.v1.tar+zstd";

/// The directory the files go into: the given one, or "/" by default.
pub open spec fn root_dir_of(root_dir: Option<Seq<char>>) -> PathView {
    match root_dir {
        Some(s) => parse_path(s),
        None => root_view(),
    }
}

impl LayerOptions {
    /// The settings from the command line: the root directory defaults to
    /// "/", the owner and group to 0.
    pub fn new(root_dir: Option<&str>, uid: Option<u64>, gid: Option<u64>) -> (res: LayerOptions)
        ensures
            res.root_dir@ == root_dir_of(
                match root_dir {
                    Some(s) => Some(s@),
                    None => None,
                },
            ),
            res.uid == match uid {
                Some(u) => u,
                None => 0,
            },
            res.gid == match gid {
                Some(g) => g,
                None => 0,
            },
    {
        let root_dir = match root_dir {
            Some(s) => FsPath::new(s),
            None => FsPath::root(),
        };
        let uid = match uid {
            Some(u) => u,
            None => 0,
        };
        let gid = match gid {
            Some(g) => g,
            None => 0,
        };
        LayerOptions { root_dir, uid, gid }
    }
}

} // verus!
