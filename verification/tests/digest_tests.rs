use ocinoco::digest::{format_digest, sha256_digest_text, HashedWriter};
use sha2::{Digest, Sha256};

#[test]
fn hashes_and_forwards_written_bytes() {
    let mut writer = HashedWriter::new(Sha256::new(), Vec::new());

    writer.write_all(b"hello");
    writer.write_all(b" world");
    writer.flush();
    let output = writer.output().clone();
    let digest = writer.finalize();

    assert_eq!(output, b"hello world");
    assert_eq!(digest.as_slice(), Sha256::digest(b"hello world").as_slice());
}

#[test]
fn write_reports_every_byte_taken() {
    let mut writer = HashedWriter::new(Sha256::new(), Vec::new());
    assert_eq!(writer.write(b"abc"), 3);
    assert_eq!(writer.take_output(), b"abc");
    assert!(writer.output().is_empty());
    assert_eq!(writer.finalize().as_slice(), Sha256::digest(b"abc").as_slice());
}

#[test]
fn formats_digests_as_lowercase_hex() {
    let mut digest = [0u8; 32];
    digest[0] = 0xab;
    digest[1] = 0x01;
    digest[31] = 0xff;
    let text = format_digest(digest);
    assert_eq!(text.len(), 71);
    assert!(text.starts_with("sha256:ab01000000"));
    assert!(text.ends_with("00ff"));

    let empty: [u8; 32] = Sha256::digest(b"").into();
    assert_eq!(
        format_digest(empty),
        "sha256:e3b0c44298fc1c149afbf4c8996fb92427ae41e4649b934ca495991b7852b855"
    );
}

#[test]
fn new_sha256_writer_digests_exactly_what_was_written() {
    let mut split = HashedWriter::with_sha256(Vec::new());
    split.write_all(b"hel");
    split.write(b"lo");
    let mut whole = HashedWriter::with_sha256(Vec::new());
    whole.write_all(b"hello");
    let digest = split.finalize();
    assert_eq!(digest, whole.finalize());
    assert_eq!(digest.as_slice(), Sha256::digest(b"hello").as_slice());
}

#[test]
fn digests_data_as_text() {
    assert_eq!(
        sha256_digest_text(b""),
        "sha256:e3b0c44298fc1c149afbf4c8996fb92427ae41e4649b934ca495991b7852b855"
    );
}
