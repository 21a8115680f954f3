# ocinoco

Builds an OCI image layer (a `tar` archive, compressed with zstd) from a
directory, without a container.

- `src/` is the verified library:
  - `path`: unix paths as components, with the meaning `std::path` gives to
    parsing, joining, stripping and taking parents; reading back the text of a
    path gives the path.
  - `fs`, `os`: the entries a source directory lists, made relative to its root
    (every regular file and directory is listed), and where a
    source path is read from (always under the root).
  - `builder`: what copying each entry takes, where it lands under the root
    directory of the layer, and what a symlink points to there (always a
    relative target, kept as written when it already is one).
  - `archive`: the layer itself, entry by entry; every parent directory of an
    entry is written once, before the entry, and never as `.` or the empty path.
  - `digest`: a writer that hashes what it passes on, and the text of a digest.
  - `layer`: the archive compressed with zstd, with its diff ID (digest of the
    archive) and its digest (digest of the compressed blob).
  - `options`: the defaults shared by both commands.
- `app/` is the command line program: argument parsing, the filesystem, the
  registry, and the parallel walk over the source tree.
- `tests/` runs the library on concrete values.
