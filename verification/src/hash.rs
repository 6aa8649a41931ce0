//! Digests.
use sha2::Digest;
use vstd::prelude::*;

verus! {

/// The SHA-256 digest of bytes, as `sha2::Sha256` computes it.
pub uninterp spec fn sha256_digest(bytes: Seq<u8>) -> Seq<u8>;

/// `sha2::Sha256::digest`: the digest of the bytes, which is 32 bytes long.
#[verifier::external_body]
pub(crate) fn sha256(bytes: &Vec<u8>) -> (r: Vec<u8>)
    ensures
        r@ == sha256_digest(bytes@),
        r@.len() == 32,
{
    sha2::Sha256::digest(bytes).to_vec()
}

/// The 64-bit FNV-1a offset basis and prime.
pub const FNV_OFFSET: u64 = 0xcbf2_9ce4_8422_2325;

pub const FNV_PRIME: u64 = 0x0000_0100_0000_01b3;

/// One step of FNV-1a.
pub open spec fn fnv_step(state: u64, byte: u8) -> u64 {
    (((state ^ (byte as u64)) * FNV_PRIME) % 0x1_0000_0000_0000_0000) as u64
}

/// FNV-1a over bytes, from a state on.
pub open spec fn fnv_from(state: u64, bytes: Seq<u8>) -> u64
    decreases bytes.len(),
{
    if bytes.len() == 0 {
        state
    } else {
        fnv_step(fnv_from(state, bytes.drop_last()), bytes.last())
    }
}

/// The 64-bit FNV-1a hash of bytes.
pub open spec fn fnv(bytes: Seq<u8>) -> u64 {
    fnv_from(FNV_OFFSET, bytes)
}

/// Hashing bytes in two parts is hashing them in one.
pub proof fn lemma_fnv_add(state: u64, a: Seq<u8>, b: Seq<u8>)
    ensures
        fnv_from(state, a + b) == fnv_from(fnv_from(state, a), b),
    decreases b.len(),
{
    if b.len() == 0 {
        assert(a + b =~= a);
    } else {
        lemma_fnv_add(state, a, b.drop_last());
        assert((a + b).drop_last() =~= a + b.drop_last());
    }
}

/// A running FNV-1a hash.
pub struct Fnv1a64 {
    state: u64,
}

impl View for Fnv1a64 {
    type V = u64;

    closed spec fn view(&self) -> u64 {
        self.state
    }
}

impl Fnv1a64 {
    pub fn new() -> (r: Fnv1a64)
        ensures
            r@ == FNV_OFFSET,
    {
        Fnv1a64 { state: FNV_OFFSET }
    }

    pub fn write(&mut self, bytes: &[u8])
        ensures
            final(self)@ == fnv_from(old(self)@, bytes@),
    {
        let mut i: usize = 0;
        while i < bytes.len()
            invariant
                i <= bytes@.len(),
                self@ == fnv_from(old(self)@, bytes@.take(i as int)),
            decreases bytes@.len() - i,
        {
            assert(bytes@.take(i + 1).drop_last() =~= bytes@.take(i as int));
            let mixed: u64 = self.state ^ (bytes[i] as u64);
            self.state = mixed.wrapping_mul(FNV_PRIME);
            i = i + 1;
        }
        assert(bytes@.take(bytes@.len() as int) =~= bytes@);
    }

    pub fn finish(&self) -> (r: u64)
        ensures
            r == self@,
    {
        self.state
    }
}

/// The 64-bit FNV-1a hash of bytes.
pub fn fnv1a64(bytes: &[u8]) -> (r: u64)
    ensures
        r == fnv(bytes@),
{
    let mut hash = Fnv1a64::new();
    hash.write(bytes);
    hash.finish()
}

} // verus!
