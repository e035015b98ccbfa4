//! Hashing the contents of files.

use vstd::prelude::*;

use crate::text::same_text;

verus! {

/// blake3's hasher.
#[verifier::external_type_specification]
#[verifier::external_body]
pub struct ExHasher(blake3::Hasher);

/// The bytes that a hasher has been given.
pub uninterp spec fn bytes_given(hasher: blake3::Hasher) -> Seq<u8>;

/// The BLAKE3 hash of some bytes in hexadecimal.
pub uninterp spec fn blake3_hex(bytes: Seq<u8>) -> Seq<char>;

/// Whether `c` is a digit of a hexadecimal number in lowercase.
pub open spec fn is_lower_hex(c: char) -> bool {
    '0' <= c <= '9' || 'a' <= c <= 'f'
}

/// `Hasher::new` of blake3: a hasher that has been given nothing.
#[verifier::external_body]
fn new_hasher() -> (r: blake3::Hasher)
    ensures
        bytes_given(r) == Seq::<u8>::empty(),
{
    blake3::Hasher::new()
}

/// `Hasher::update` of blake3: gives the hasher more bytes, behind those that it
/// has been given.
#[verifier::external_body]
fn give(hasher: &mut blake3::Hasher, bytes: &[u8])
    ensures
        bytes_given(*final(hasher)) == bytes_given(*old(hasher)) + bytes@,
{
    hasher.update(bytes);
}

/// `Hasher::finalize` and `Hash::to_hex` of blake3: the hash of all bytes that
/// the hasher has been given, as 64 hexadecimal digits in lowercase.
#[verifier::external_body]
fn hex_hash(hasher: &blake3::Hasher) -> (r: String)
    ensures
        r@ == blake3_hex(bytes_given(*hasher)),
        r@.len() == 64,
        forall|i: int| 0 <= i < r@.len() ==> is_lower_hex(#[trigger] r@[i]),
{
    hasher.finalize().to_hex().to_string()
}

/// Hashes contents that come piece by piece.
pub struct ContentHasher {
    inner: blake3::Hasher,
}

impl View for ContentHasher {
    type V = Seq<u8>;

    closed spec fn view(&self) -> Seq<u8> {
        bytes_given(self.inner)
    }
}

impl ContentHasher {
    /// Before any contents.
    pub fn new() -> (r: ContentHasher)
        ensures
            r@ == Seq::<u8>::empty(),
    {
        ContentHasher { inner: new_hasher() }
    }

    /// Takes the next piece of the contents.
    pub fn update(&mut self, chunk: &[u8])
        ensures
            final(self)@ == old(self)@ + chunk@,
    {
        give(&mut self.inner, chunk);
    }

    /// The hash of the contents so far.
    pub fn finish(&self) -> (r: String)
        ensures
            r@ == blake3_hex(self@),
            r@.len() == 64,
            forall|i: int| 0 <= i < r@.len() ==> is_lower_hex(#[trigger] r@[i]),
    {
        hex_hash(&self.inner)
    }
}

/// The pieces one after another.
pub open spec fn contents(chunks: Seq<Vec<u8>>) -> Seq<u8>
    decreases chunks.len(),
{
    if chunks.len() == 0 {
        Seq::empty()
    } else {
        contents(chunks.drop_last()) + chunks.last()@
    }
}

/// The hash of contents that were read in pieces. How they were cut makes no
/// difference.
pub fn hash_chunks(chunks: &Vec<Vec<u8>>) -> (r: String)
    ensures
        r@ == blake3_hex(contents(chunks@)),
        r@.len() == 64,
        forall|i: int| 0 <= i < r@.len() ==> is_lower_hex(#[trigger] r@[i]),
{
    let mut hasher: ContentHasher = ContentHasher::new();
    for i in 0..chunks.len()
        invariant
            hasher@ == contents(chunks@.take(i as int)),
    {
        hasher.update(chunks[i].as_slice());
        assert(chunks@.take(i + 1).drop_last() == chunks@.take(i as int));
    }
    assert(chunks@.take(chunks@.len() as int) == chunks@);
    hasher.finish()
}

/// The hash of the given bytes.
pub fn hash_bytes(bytes: &[u8]) -> (r: String)
    ensures
        r@ == blake3_hex(bytes@),
        r@.len() == 64,
        forall|i: int| 0 <= i < r@.len() ==> is_lower_hex(#[trigger] r@[i]),
{
    let mut hasher: ContentHasher = ContentHasher::new();
    hasher.update(bytes);
    assert(Seq::<u8>::empty() + bytes@ == bytes@);
    hasher.finish()
}

/// Whether contents still have the hash that was recorded for them.
pub fn verify_hash(actual: &str, expected: &str) -> (r: bool)
    ensures
        r == (actual@ == expected@),
{
    same_text(actual, expected)
}

/// Whether contents that were read in pieces have the given hash.
pub fn verify_chunks(chunks: &Vec<Vec<u8>>, expected: &str) -> (r: bool)
    ensures
        r == (blake3_hex(contents(chunks@)) == expected@),
{
    verify_hash(hash_chunks(chunks).as_str(), expected)
}

/// What came of hashing a file.
#[derive(Debug)]
pub enum HashResult {
    /// The file was hashed.
    Hashed {
        path: String,
        hash: String,
    },
    /// The file could not be hashed.
    Failed {
        path: String,
        reason: String,
    },
}

impl Clone for HashResult {
    fn clone(&self) -> (r: Self)
        ensures
            r == *self,
    {
        match self {
            HashResult::Hashed { path, hash } => HashResult::Hashed { path: path.clone(), hash: hash.clone() },
            HashResult::Failed { path, reason } => HashResult::Failed {
                path: path.clone(),
                reason: reason.clone(),
            },
        }
    }
}

impl HashResult {
    /// Whether the file was hashed.
    pub fn is_ok(&self) -> (r: bool)
        ensures
            r == (self is Hashed),
    {
        matches!(self, HashResult::Hashed { .. })
    }

    /// The path and the hash, where the file was hashed.
    pub fn into_ok(self) -> (r: Option<(String, String)>)
        ensures
            r == match self {
                HashResult::Hashed { path, hash } => Some((path, hash)),
                HashResult::Failed { .. } => None,
            },
    {
        match self {
            HashResult::Hashed { path, hash } => Some((path, hash)),
            HashResult::Failed { .. } => None,
        }
    }
}

} // verus!
