//! Builds OCI image layers from a directory tree: the paths, entries, archive
//! records and digests that go into a `tar` layer.
pub mod archive;
pub mod builder;
pub mod digest;
pub mod fs;
pub mod layer;
pub mod options;
pub mod os;
pub mod path;
