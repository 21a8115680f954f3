//! Digests of what is written: a writer that hashes every byte it passes on,
//! and the text form of a digest.
use vstd::prelude::*;

use crate::path::string_of;

verus! {

/// Declares `sha2::Sha256`, the SHA-256 hasher, as an opaque type.
#[verifier::external_type_specification]
#[verifier::external_body]
pub struct ExSha256(sha2::Sha256);

/// What a `sha2::Sha256` hasher holds: the message it has taken in since it
/// was created, byte for byte (the hasher is treated as a collection of the
/// bytes given to it; its internal state is not modelled).
pub uninterp spec fn sha256_absorbed(hasher: sha2::Sha256) -> Seq<u8>;

/// The SHA-256 digest of a message.
pub uninterp spec fn sha256_digest(message: Seq<u8>) -> Seq<u8>;

/// `sha2::Digest::new` for SHA-256: a hasher that has taken in nothing.
#[verifier::external_body]
fn sha256_new() -> (res: sha2::Sha256)
    ensures
        sha256_absorbed(res) == Seq::<u8>::empty(),
{
    <sha2::Sha256 as sha2::Digest>::new()
}

/// `sha2::Digest::update`: the hasher takes in `data` after what it has.
#[verifier::external_body]
fn sha256_update(hasher: &mut sha2::Sha256, data: &[u8])
    ensures
        sha256_absorbed(*final(hasher)) == sha256_absorbed(*old(hasher)) + data@,
{
    sha2::Digest::update(hasher, data)
}

/// `sha2::Digest::finalize`: the 32-byte SHA-256 digest of everything the
/// hasher took in.
#[verifier::external_body]
fn sha256_finalize(hasher: sha2::Sha256) -> (res: Vec<u8>)
    ensures
        res@ == sha256_digest(sha256_absorbed(hasher)),
        res@.len() == 32,
{
    sha2::Digest::finalize(hasher).to_vec()
}

/// A writer that hashes every byte it passes on to the buffer it holds.
pub struct HashedWriter {
    hasher: sha2::Sha256,
    writer: Vec<u8>,
}

impl HashedWriter {
    /// Everything that the hasher has taken in.
    pub closed spec fn hashed(&self) -> Seq<u8> {
        sha256_absorbed(self.hasher)
    }

    /// Everything that the buffer holds.
    pub closed spec fn written(&self) -> Seq<u8> {
        self.writer@
    }

    pub fn new(hasher: sha2::Sha256, writer: Vec<u8>) -> (res: HashedWriter)
        ensures
            res.hashed() == sha256_absorbed(hasher),
            res.written() == writer@,
    {
        HashedWriter { hasher, writer }
    }

    /// A writer with a new SHA-256 hasher, passing bytes on to `writer`.
    pub fn with_sha256(writer: Vec<u8>) -> (res: HashedWriter)
        ensures
            res.hashed() == Seq::<u8>::empty(),
            res.written() == writer@,
    {
        HashedWriter { hasher: sha256_new(), writer }
    }

    /// The digest of everything hashed.
    pub fn finalize(self) -> (res: Vec<u8>)
        ensures
            res@ == sha256_digest(self.hashed()),
            res@.len() == 32,
    {
        sha256_finalize(self.hasher)
    }

    /// Hashes `buf` and passes it on; all of it is taken.
    pub fn write(&mut self, buf: &[u8]) -> (res: usize)
        ensures
            res == buf@.len(),
            final(self).hashed() == old(self).hashed() + buf@,
            final(self).written() == old(self).written() + buf@,
    {
        sha256_update(&mut self.hasher, buf);
        self.writer.extend_from_slice(buf);
        buf.len()
    }

    /// Nothing waits to be passed on.
    pub fn flush(&mut self)
        ensures
            final(self).hashed() == old(self).hashed(),
            final(self).written() == old(self).written(),
    {
    }

    /// Hashes `buf` and passes all of it on.
    pub fn write_all(&mut self, buf: &[u8])
        ensures
            final(self).hashed() == old(self).hashed() + buf@,
            final(self).written() == old(self).written() + buf@,
    {
        sha256_update(&mut self.hasher, buf);
        self.writer.extend_from_slice(buf);
    }

    /// The bytes passed on so far.
    pub fn output(&self) -> (res: &Vec<u8>)
        ensures
            res@ == self.written(),
    {
        &self.writer
    }

    /// Takes the bytes passed on so far, leaving the buffer empty.
    pub fn take_output(&mut self) -> (res: Vec<u8>)
        ensures
            res@ == old(self).written(),
            final(self).written() == Seq::<u8>::empty(),
            final(self).hashed() == old(self).hashed(),
    {
        let mut out: Vec<u8> = Vec::new();
        std::mem::swap(&mut out, &mut self.writer);
        out
    }
}

/// The bytes taken in after `hashed` once each chunk is written, in order.
pub open spec fn after_writes(hashed: Seq<u8>, chunks: Seq<Seq<u8>>) -> Seq<u8>
    decreases chunks.len(),
{
    if chunks.len() == 0 {
        hashed
    } else {
        after_writes(hashed, chunks.drop_last()) + chunks.last()
    }
}

/// The chunks one after another.
pub open spec fn concat_chunks(chunks: Seq<Seq<u8>>) -> Seq<u8>
    decreases chunks.len(),
{
    if chunks.len() == 0 {
        Seq::empty()
    } else {
        concat_chunks(chunks.drop_last()) + chunks.last()
    }
}

/// Writing chunks one by one takes in their concatenation.
pub proof fn lemma_after_writes(hashed: Seq<u8>, chunks: Seq<Seq<u8>>)
    ensures
        after_writes(hashed, chunks) == hashed + concat_chunks(chunks),
    decreases chunks.len(),
{
    if chunks.len() == 0 {
        assert(hashed + Seq::<u8>::empty() =~= hashed);
    } else {
        lemma_after_writes(hashed, chunks.drop_last());
        assert(hashed + concat_chunks(chunks.drop_last()) + chunks.last() =~= hashed
            + concat_chunks(chunks));
    }
}

/// The digest of a writer with a new SHA-256 hasher depends only on the
/// bytes written, not on how they were split into writes: two ways of
/// writing the same bytes give the same digest, the SHA-256 of those bytes.
pub proof fn lemma_digest_ignores_split(a: Seq<Seq<u8>>, b: Seq<Seq<u8>>)
    requires
        concat_chunks(a) == concat_chunks(b),
    ensures
        sha256_digest(after_writes(Seq::empty(), a)) == sha256_digest(after_writes(Seq::empty(), b)),
        sha256_digest(after_writes(Seq::empty(), a)) == sha256_digest(concat_chunks(a)),
{
    lemma_after_writes(Seq::empty(), a);
    lemma_after_writes(Seq::empty(), b);
    assert(Seq::<u8>::empty() + concat_chunks(a) =~= concat_chunks(a));
    assert(Seq::<u8>::empty() + concat_chunks(b) =~= concat_chunks(b));
}

/// The lowercase hexadecimal digit of `n`.
pub open spec fn hex_digit(n: u8) -> char {
    if n < 10 {
        (48 + n) as char
    } else {
        (87 + n) as char
    }
}

/// Each byte as two lowercase hexadecimal digits, high digit first.
pub open spec fn hex_lower(bytes: Seq<u8>) -> Seq<char>
    decreases bytes.len(),
{
    if bytes.len() == 0 {
        Seq::empty()
    } else {
        hex_lower(bytes.drop_last()) + seq![
            hex_digit(bytes.last() / 16),
            hex_digit(bytes.last() % 16),
        ]
    }
}

/// The text that names the algorithm of a digest.
pub open spec fn digest_prefix() -> Seq<char> {
    seq!['s', 'h', 'a', '2', '5', '6', ':']
}

fn push_hex_digit(out: &mut Vec<char>, n: u8)
    requires
        n < 16,
    ensures
        final(out)@ == old(out)@.push(hex_digit(n)),
{
    if n < 10 {
        out.push((48u8 + n) as char);
    } else {
        out.push((87u8 + n) as char);
    }
}

/// `"sha256:"` followed by the bytes in lowercase hexadecimal.
fn digest_text(digest: &[u8]) -> (res: String)
    ensures
        res@ == digest_prefix() + hex_lower(digest@),
{
    let mut out: Vec<char> = Vec::new();
    out.push('s');
    out.push('h');
    out.push('a');
    out.push('2');
    out.push('5');
    out.push('6');
    out.push(':');
    assert(out@ =~= digest_prefix());
    assert(digest@.take(0) =~= Seq::<u8>::empty());
    let n = digest.len();
    for i in 0..n
        invariant
            n == digest@.len(),
            out@ == digest_prefix() + hex_lower(digest@.take(i as int)),
    {
        let b = digest[i];
        push_hex_digit(&mut out, b / 16);
        push_hex_digit(&mut out, b % 16);
        proof {
            let t = digest@.take(i + 1);
            assert(t.drop_last() =~= digest@.take(i as int));
            assert(t.last() == b);
            assert(out@ =~= digest_prefix() + hex_lower(t));
        }
    }
    assert(digest@.take(n as int) =~= digest@);
    string_of(out.as_slice())
}

/// `"sha256:"` followed by the digest in lowercase hexadecimal.
pub fn format_digest(digest: [u8; 32]) -> (res: String)
    ensures
        res@ == digest_prefix() + hex_lower(digest@),
{
    digest_text(digest.as_slice())
}

/// The SHA-256 digest of `data`, as text (`"sha256:"` and lowercase hexadecimal).
pub fn sha256_digest_text(data: &[u8]) -> (res: String)
    ensures
        res@ == digest_prefix() + hex_lower(sha256_digest(data@)),
{
    let mut hasher = sha256_new();
    sha256_update(&mut hasher, data);
    let digest = sha256_finalize(hasher);
    assert(Seq::<u8>::empty() + data@ =~= data@);
    digest_text(digest.as_slice())
}

/// The text of a digest is 71 characters long: the prefix and two digits per byte.
pub proof fn lemma_hex_lower_len(bytes: Seq<u8>)
    ensures
        hex_lower(bytes).len() == 2 * bytes.len(),
    decreases bytes.len(),
{
    if bytes.len() > 0 {
        lemma_hex_lower_len(bytes.drop_last());
    }
}

/// The standard lowercase hexadecimal alphabet.
pub open spec fn hex_alphabet() -> Seq<char> {
    seq!['0', '1', '2', '3', '4', '5', '6', '7', '8', '9', 'a', 'b', 'c', 'd', 'e', 'f']
}

/// The value of a lowercase hexadecimal digit.
pub open spec fn hex_value(c: char) -> int {
    if c == '0' { 0 } else if c == '1' { 1 } else if c == '2' { 2 } else if c == '3' { 3 }
    else if c == '4' { 4 } else if c == '5' { 5 } else if c == '6' { 6 } else if c == '7' { 7 }
    else if c == '8' { 8 } else if c == '9' { 9 } else if c == 'a' { 10 } else if c == 'b' { 11 }
    else if c == 'c' { 12 } else if c == 'd' { 13 } else if c == 'e' { 14 } else if c == 'f' { 15 }
    else { -1 }
}

/// Each digit is the standard lowercase one: `hex_digit(n)` is the `n`-th
/// character of "0123456789abcdef", and reading it back gives `n`.
pub proof fn lemma_hex_digit_standard(n: u8)
    requires
        n < 16,
    ensures
        hex_digit(n) == hex_alphabet()[n as int],
        hex_value(hex_digit(n)) == n,
{
    if n == 0 { assert(hex_digit(0) == '0'); }
    else if n == 1 { assert(hex_digit(1) == '1'); }
    else if n == 2 { assert(hex_digit(2) == '2'); }
    else if n == 3 { assert(hex_digit(3) == '3'); }
    else if n == 4 { assert(hex_digit(4) == '4'); }
    else if n == 5 { assert(hex_digit(5) == '5'); }
    else if n == 6 { assert(hex_digit(6) == '6'); }
    else if n == 7 { assert(hex_digit(7) == '7'); }
    else if n == 8 { assert(hex_digit(8) == '8'); }
    else if n == 9 { assert(hex_digit(9) == '9'); }
    else if n == 10 { assert(hex_digit(10) == 'a'); }
    else if n == 11 { assert(hex_digit(11) == 'b'); }
    else if n == 12 { assert(hex_digit(12) == 'c'); }
    else if n == 13 { assert(hex_digit(13) == 'd'); }
    else if n == 14 { assert(hex_digit(14) == 'e'); }
    else { assert(hex_digit(15) == 'f'); }
}

/// The text of a digest decodes back to its bytes: two byte strings with the
/// same hexadecimal text are the same.
pub proof fn lemma_hex_lower_injective(a: Seq<u8>, b: Seq<u8>)
    requires
        hex_lower(a) == hex_lower(b),
    ensures
        a == b,
    decreases a.len(),
{
    lemma_hex_lower_len(a);
    lemma_hex_lower_len(b);
    if a.len() > 0 {
        let ha = hex_lower(a.drop_last());
        let hb = hex_lower(b.drop_last());
        lemma_hex_lower_len(a.drop_last());
        lemma_hex_lower_len(b.drop_last());
        let n = ha.len() as int;
        assert(hex_lower(a)[n] == hex_digit(a.last() / 16));
        assert(hex_lower(a)[n + 1] == hex_digit(a.last() % 16));
        assert(hex_lower(b)[n] == hex_digit(b.last() / 16));
        assert(hex_lower(b)[n + 1] == hex_digit(b.last() % 16));
        lemma_hex_digit_standard(a.last() / 16);
        lemma_hex_digit_standard(a.last() % 16);
        lemma_hex_digit_standard(b.last() / 16);
        lemma_hex_digit_standard(b.last() % 16);
        assert(a.last() / 16 == b.last() / 16);
        assert(a.last() % 16 == b.last() % 16);
        assert(a.last() == b.last());
        assert(ha =~= hex_lower(a).subrange(0, n));
        assert(hb =~= hex_lower(b).subrange(0, n));
        lemma_hex_lower_injective(a.drop_last(), b.drop_last());
        assert(a =~= a.drop_last().push(a.last()));
        assert(b =~= b.drop_last().push(b.last()));
    } else {
        assert(a =~= b);
    }
}

} // verus!
