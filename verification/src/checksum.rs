//! The SHA-256 checksum of a completed download, fed chunk by chunk as the
//! file is read and written out as lowercase hexadecimal.

use vstd::prelude::*;
use sha2::{Digest, Sha256};

verus! {

/// A running SHA-256 computation.
#[verifier::external_body]
pub struct Sha256State {
    inner: Sha256,
}

/// The bytes fed to a running SHA-256 computation so far.
pub uninterp spec fn hashed_bytes(state: Sha256State) -> Seq<u8>;

/// The SHA-256 digest of `data`.
pub uninterp spec fn sha256_of(data: Seq<u8>) -> Seq<u8>;

/// Calls `Sha256::new`: nothing is fed yet.
#[verifier::external_body]
fn sha256_new() -> (state: Sha256State)
    ensures
        hashed_bytes(state) == Seq::<u8>::empty(),
{
    Sha256State { inner: Sha256::new() }
}

/// Calls `Digest::update`, which feeds `chunk` after what came before.
#[verifier::external_body]
fn sha256_update(state: &mut Sha256State, chunk: &[u8])
    ensures
        hashed_bytes(*final(state)) == hashed_bytes(*old(state)) + chunk@,
{
    state.inner.update(chunk);
}

/// Calls `Digest::finalize`, which gives the 32-byte digest of everything
/// fed.
#[verifier::external_body]
fn sha256_finalize(state: Sha256State) -> (digest: Vec<u8>)
    ensures
        digest@ == sha256_of(hashed_bytes(state)),
        digest@.len() == 32,
{
    state.inner.finalize().to_vec()
}

pub open spec fn hex_digit(v: int) -> char {
    if v < 10 {
        (('0' as int) + v) as char
    } else {
        (('a' as int) + v - 10) as char
    }
}

/// Two lowercase hexadecimal digits per byte, high nibble first.
pub open spec fn hex_lower(bytes: Seq<u8>) -> Seq<char>
    decreases bytes.len(),
{
    if bytes.len() == 0 {
        Seq::empty()
    } else {
        hex_lower(bytes.drop_last()) + seq![
            hex_digit(bytes.last() as int / 16),
            hex_digit(bytes.last() as int % 16),
        ]
    }
}

/// Two digits per byte.
pub proof fn lemma_hex_len(bytes: Seq<u8>)
    ensures
        hex_lower(bytes).len() == 2 * bytes.len(),
    decreases bytes.len(),
{
    if bytes.len() > 0 {
        lemma_hex_len(bytes.drop_last());
    }
}

fn hex_digit_exec(v: u8) -> (c: char)
    requires
        v < 16,
    ensures
        c == hex_digit(v as int),
{
    if v < 10 {
        (('0' as u8) + v) as char
    } else {
        (('a' as u8) + v - 10) as char
    }
}

/// `bytes` as lowercase hexadecimal.
pub fn hex_string(bytes: &[u8]) -> (r: String)
    ensures
        r@ == hex_lower(bytes@),
{
    let mut out: Vec<char> = Vec::new();
    let mut i: usize = 0;
    while i < bytes.len()
        invariant
            i <= bytes@.len(),
            out@ == hex_lower(bytes@.take(i as int)),
        decreases bytes@.len() - i,
    {
        let b = bytes[i];
        assert(bytes@.take(i + 1).drop_last() =~= bytes@.take(i as int));
        assert(bytes@.take(i + 1).last() == b);
        out.push(hex_digit_exec(b / 16));
        out.push(hex_digit_exec(b % 16));
        assert(out@ =~= hex_lower(bytes@.take(i + 1)));
        i = i + 1;
    }
    assert(bytes@.take(bytes@.len() as int) =~= bytes@);
    crate::text::string_from_chars(out.as_slice())
}

/// The checksum of a file, fed in the order its bytes are read.
pub struct Checksum {
    state: Sha256State,
}

impl Checksum {
    /// The bytes fed so far.
    pub closed spec fn data(&self) -> Seq<u8> {
        hashed_bytes(self.state)
    }

    /// A checksum of nothing yet.
    pub fn new() -> (r: Checksum)
        ensures
            r.data() == Seq::<u8>::empty(),
    {
        Checksum { state: sha256_new() }
    }

    /// Feed the next chunk.
    pub fn update(&mut self, chunk: &[u8])
        ensures
            final(self).data() == old(self).data() + chunk@,
    {
        sha256_update(&mut self.state, chunk);
    }

    /// The SHA-256 of everything fed, as 64 lowercase hexadecimal digits.
    pub fn finish(self) -> (r: String)
        ensures
            r@ == hex_lower(sha256_of(self.data())),
            r@.len() == 64,
    {
        let digest = sha256_finalize(self.state);
        proof {
            lemma_hex_len(digest@);
        }
        hex_string(digest.as_slice())
    }
}

} // verus!
