//! Content digests: an incremental MD5 accumulator fed chunk by chunk,
//! finalized to a lowercase hex string.
//!
//! The MD5 computation itself comes from the `md5` crate and is trusted;
//! what this module proves is how absorbed bytes accumulate across
//! chunked feeding and that the rendered digest is the hex form of the
//! digest of exactly the absorbed bytes.

use vstd::prelude::*;
use crate::hex::{hex_of, hex_lower};

verus! {

#[verifier::external_type_specification]
#[verifier::external_body]
pub struct ExMd5(md5::Md5);

/// The MD5 digest (16 bytes) of a byte string. Left unspecified: the
/// algorithm is the `md5` crate's business; contracts only relate
/// results to the input bytes through this name.
pub uninterp spec fn md5_of(data: Seq<u8>) -> Seq<u8>;

/// The bytes an MD5 accumulator has absorbed so far.
pub uninterp spec fn absorbed(h: md5::Md5) -> Seq<u8>;

/// Relies on md5::Md5::new (digest::Digest::new): a fresh hasher has
/// absorbed nothing.
#[verifier::external_body]
fn md5_new() -> (h: md5::Md5)
    ensures
        absorbed(h) == Seq::<u8>::empty(),
{
    <md5::Md5 as md5::Digest>::new()
}

/// Relies on md5::Md5::update (digest::Digest::update): absorbs the
/// chunk after everything absorbed before.
#[verifier::external_body]
fn md5_update(h: &mut md5::Md5, chunk: &[u8])
    ensures
        absorbed(*final(h)) == absorbed(*old(h)) + chunk@,
{
    <md5::Md5 as md5::Digest>::update(h, chunk)
}

/// Relies on md5::Md5::finalize (digest::Digest::finalize): returns the
/// 16-byte MD5 digest of the absorbed bytes.
#[verifier::external_body]
fn md5_finalize(h: md5::Md5) -> (r: Vec<u8>)
    ensures
        r@ == md5_of(absorbed(h)),
        r@.len() == 16,
{
    <md5::Md5 as md5::Digest>::finalize(h).as_slice().to_vec()
}

/// An incremental content digester: bytes are fed in chunks of any
/// size, and the finalized digest depends on the concatenation alone.
pub struct Digester {
    state: md5::Md5,
}

impl Digester {
    /// The bytes fed so far.
    pub closed spec fn bytes(&self) -> Seq<u8> {
        absorbed(self.state)
    }

    /// A digester that has seen no bytes yet.
    pub fn new() -> (d: Digester)
        ensures
            d.bytes() == Seq::<u8>::empty(),
    {
        Digester { state: md5_new() }
    }

    /// Feed one chunk.
    pub fn update(&mut self, chunk: &[u8])
        ensures
            final(self).bytes() == old(self).bytes() + chunk@,
    {
        md5_update(&mut self.state, chunk);
    }

    /// The digest of all bytes fed, as 32 lowercase hex characters.
    pub fn finalize_hex(self) -> (r: String)
        ensures
            r@ == hex_of(md5_of(self.bytes())),
            r@.len() == 32,
    {
        let raw = md5_finalize(self.state);
        hex_lower(&raw)
    }
}

/// The digest of a whole byte string, as 32 lowercase hex characters.
pub fn md5_hex(content: &[u8]) -> (r: String)
    ensures
        r@ == hex_of(md5_of(content@)),
        r@.len() == 32,
{
    let mut d = Digester::new();
    d.update(content);
    proof {
        assert(d.bytes() =~= content@);
    }
    d.finalize_hex()
}

/// A sequence of chunks flattened into one byte string.
pub open spec fn concat_chunks(chunks: Seq<Seq<u8>>) -> Seq<u8>
    decreases chunks.len(),
{
    if chunks.len() == 0 {
        Seq::empty()
    } else {
        concat_chunks(chunks.drop_last()) + chunks.last()
    }
}

/// The digest of a byte string presented as a sequence of chunks, as 32
/// lowercase hex characters.
pub fn md5_hex_of_chunks(chunks: &Vec<Vec<u8>>) -> (r: String)
    ensures
        r@ == hex_of(md5_of(concat_chunks(chunks@.map_values(|c: Vec<u8>| c@)))),
        r@.len() == 32,
{
    let ghost cv = chunks@.map_values(|c: Vec<u8>| c@);
    let mut d = Digester::new();
    proof {
        assert(d.bytes() =~= concat_chunks(cv.take(0)));
    }
    let n = chunks.len();
    for i in 0..n
        invariant
            n == chunks.len(),
            cv == chunks@.map_values(|c: Vec<u8>| c@),
            d.bytes() == concat_chunks(cv.take(i as int)),
    {
        d.update(chunks[i].as_slice());
        proof {
            assert(cv.take(i + 1).drop_last() =~= cv.take(i as int));
            assert(cv.take(i + 1).last() == cv[i as int]);
            assert(d.bytes() =~= concat_chunks(cv.take(i + 1)));
        }
    }
    proof {
        assert(cv.take(n as int) =~= cv);
    }
    d.finalize_hex()
}

/// Law: the digest is deterministic in the byte content alone. Two
/// feedings whose chunks flatten to the same bytes — the same file read
/// twice, or read with different chunk boundaries — finalize to the
/// same hex digest.
pub proof fn lemma_digest_deterministic(c1: Seq<Seq<u8>>, c2: Seq<Seq<u8>>)
    requires
        concat_chunks(c1) == concat_chunks(c2),
    ensures
        hex_of(md5_of(concat_chunks(c1))) == hex_of(md5_of(concat_chunks(c2))),
{
}

} // verus!
