//! From a file's bytes and creation time to the record that stands for it.

use crate::remove_tags::{
    header_at, header_opens_at, is_synchsafe, remove_tags_from_buffer, size_field,
    strip_removes_block, stripped_bytes, synchsafe_value, HEADER_LEN,
};
use vstd::arithmetic::power2::{
    lemma2_to64, lemma2_to64_rest, lemma_pow2_adds, lemma_pow2_strictly_increases, pow2,
};
use vstd::prelude::*;

verus! {

/// A content fingerprint: the sixteen digest bytes read as one number.
pub type Fingerprint = u128;

/// A creation time, in nanoseconds since the Unix epoch. Only the order of
/// two timestamps matters.
pub type Timestamp = i128;

/// The MD5 digest of `data`.
pub uninterp spec fn md5_digest(data: Seq<u8>) -> Seq<u8>;

/// Calls `md5::compute` and hands out the sixteen bytes of its digest.
///
/// Trusted: the result is the MD5 digest of exactly the bytes given, the
/// same on every call. Nothing else is claimed of it.
#[verifier::external_body]
fn compute_md5(data: &[u8]) -> (digest: [u8; 16])
    ensures
        digest@ == md5_digest(data@),
{
    md5::compute(data).0
}

/// The number that bytes spell, most significant byte first.
pub open spec fn be_value(bytes: Seq<u8>) -> nat
    decreases bytes.len(),
{
    if bytes.len() == 0 {
        0
    } else {
        be_value(bytes.drop_last()) * 256 + bytes.last() as nat
    }
}

/// `n` bytes spell a number below `2^(8n)`.
pub proof fn lemma_be_value_bound(bytes: Seq<u8>)
    ensures
        be_value(bytes) < pow2(8 * bytes.len()),
    decreases bytes.len(),
{
    lemma2_to64();
    if bytes.len() > 0 {
        let rest = bytes.drop_last();
        lemma_be_value_bound(rest);
        lemma_pow2_adds(8 * rest.len(), 8);
    }
}

/// Two byte strings of one length that spell the same number are the same
/// string: a fingerprint stands for exactly one digest.
pub proof fn digest_is_determined_by_value(a: Seq<u8>, b: Seq<u8>)
    requires
        a.len() == b.len(),
        be_value(a) == be_value(b),
    ensures
        a == b,
    decreases a.len(),
{
    if a.len() > 0 {
        digest_is_determined_by_value(a.drop_last(), b.drop_last());
        assert(a =~= a.drop_last().push(a.last()));
        assert(b =~= b.drop_last().push(b.last()));
    } else {
        assert(a =~= b);
    }
}

/// Reads the sixteen bytes of a digest as one number, most significant
/// byte first.
pub fn pack_digest(digest: &[u8; 16]) -> (fingerprint: Fingerprint)
    ensures
        fingerprint == be_value(digest@),
{
    let mut value: u128 = 0;
    let mut i: usize = 0;
    while i < 16
        invariant
            i <= 16,
            value == be_value(digest@.take(i as int)),
        decreases 16 - i,
    {
        proof {
            let seen = digest@.take(i as int);
            lemma_be_value_bound(seen);
            lemma2_to64_rest();
            lemma_pow2_adds(64, 56);
            if 8 * i < 120 {
                lemma_pow2_strictly_increases((8 * i) as nat, 120);
            }
            assert(digest@.take(i + 1).drop_last() =~= seen);
        }
        value = value * 256 + digest[i] as u128;
        i += 1;
    }
    assert(digest@.take(16) =~= digest@);
    value
}

/// The fingerprint of content bytes: the number that their MD5 digest
/// spells.
pub open spec fn content_fingerprint(content: Seq<u8>) -> Fingerprint {
    be_value(md5_digest(content)) as Fingerprint
}

/// Computes the fingerprint of content bytes.
pub fn fingerprint_content(content: &[u8]) -> (fingerprint: Fingerprint)
    ensures
        fingerprint == content_fingerprint(content@),
{
    let digest = compute_md5(content);
    pack_digest(&digest)
}

/// What stands for one file in the duplicate index.
#[derive(Debug, PartialEq, Eq)]
pub struct FileRecord<P> {
    /// Fingerprint of the file's bytes without their tag block.
    pub fingerprint: Fingerprint,
    /// When the file was created.
    pub timestamp: Timestamp,
    /// Where the file lies.
    pub path: P,
}

/// Why a file got no record.
#[derive(Debug, PartialEq, Eq)]
pub enum FingerprintError<E> {
    /// The file's bytes could not be read.
    Read(E),
    /// The file's creation time could not be read.
    Metadata(E),
    /// The tag block could not be removed: its size field is not synchsafe.
    MalformedTags,
}

/// The record of a file, or the reason it has none, given what reading its
/// bytes and its creation time gave.
///
/// A failed read is reported before a failed creation time. A malformed
/// buffer is never hashed.
pub open spec fn record_of<P, E>(
    path: P,
    buffer: Result<Vec<u8>, E>,
    created: Result<Timestamp, E>,
) -> Result<FileRecord<P>, FingerprintError<E>> {
    match buffer {
        Err(e) => Err(FingerprintError::Read(e)),
        Ok(bytes) => match created {
            Err(e) => Err(FingerprintError::Metadata(e)),
            Ok(timestamp) => match stripped_bytes(bytes@) {
                None => Err(FingerprintError::MalformedTags),
                Some(content) => Ok(
                    FileRecord { fingerprint: content_fingerprint(content), timestamp, path },
                ),
            },
        },
    }
}

/// Turns what was read of a file into its record.
pub fn try_data<P, E>(
    path: P,
    buffer: Result<Vec<u8>, E>,
    created: Result<Timestamp, E>,
) -> (record: Result<FileRecord<P>, FingerprintError<E>>)
    ensures
        record == record_of(path, buffer, created),
{
    let buffer = match buffer {
        Ok(bytes) => bytes,
        Err(e) => return Err(FingerprintError::Read(e)),
    };
    let time = match created {
        Ok(time) => time,
        Err(e) => return Err(FingerprintError::Metadata(e)),
    };
    let content = match remove_tags_from_buffer(buffer) {
        Some(content) => content,
        None => return Err(FingerprintError::MalformedTags),
    };
    let md5 = fingerprint_content(content.as_slice());
    Ok(FileRecord { fingerprint: md5, timestamp: time, path })
}

/// A header with a synchsafe size field, followed by as many payload
/// bytes as the field says.
pub open spec fn is_tag_block(header: Seq<u8>, payload: Seq<u8>) -> bool {
    &&& header.len() == HEADER_LEN
    &&& header_at(header, 0)
    &&& is_synchsafe(size_field(header, 0))
    &&& synchsafe_value(size_field(header, 0)) == payload.len()
}

/// Two files that differ only in their tag block get the same fingerprint,
/// whatever their paths and creation times, provided that no header opens
/// in the bytes before the block.
pub proof fn tag_block_does_not_change_fingerprint<P, E>(
    prefix: Seq<u8>,
    suffix: Seq<u8>,
    first: (P, Vec<u8>, Timestamp),
    first_tag: (Seq<u8>, Seq<u8>),
    second: (P, Vec<u8>, Timestamp),
    second_tag: (Seq<u8>, Seq<u8>),
)
    requires
        forall|q: int| !header_opens_at(prefix, q),
        is_tag_block(first_tag.0, first_tag.1),
        is_tag_block(second_tag.0, second_tag.1),
        first.1@ == prefix + first_tag.0 + first_tag.1 + suffix,
        second.1@ == prefix + second_tag.0 + second_tag.1 + suffix,
    ensures
        record_of::<P, E>(first.0, Ok(first.1), Ok(first.2)) is Ok,
        record_of::<P, E>(second.0, Ok(second.1), Ok(second.2)) is Ok,
        record_of::<P, E>(first.0, Ok(first.1), Ok(first.2))->Ok_0.fingerprint == record_of::<
            P,
            E,
        >(second.0, Ok(second.1), Ok(second.2))->Ok_0.fingerprint,
        record_of::<P, E>(first.0, Ok(first.1), Ok(first.2))->Ok_0.fingerprint
            == content_fingerprint(prefix + suffix),
{
    strip_removes_block(prefix, first_tag.0, first_tag.1, suffix);
    strip_removes_block(prefix, second_tag.0, second_tag.1, suffix);
}

} // verus!
