//! The SM2 key-derivation function: the SM3 digests of `z ∥ ct` for the
//! counters `ct = 1, 2, ...`, concatenated and cut to the requested length.
use crate::engine::{sm3_hash, sm3_of};
use vstd::prelude::*;

verus! {

/// Largest mask (and so message) length, in bytes, that the library derives.
pub const MAX_MSG_LEN: usize = 0x7fff_ffff;

/// Width of an SM3 digest, in bytes.
pub const DIGEST_LEN: usize = 32;

/// The digest of `data`, as a sequence of exactly `DIGEST_LEN` bytes.
pub open spec fn digest(data: Seq<u8>) -> Seq<u8> {
    Seq::new(DIGEST_LEN as nat, |i: int| sm3_of(data)[i])
}

/// The four big-endian bytes of a 32-bit counter.
pub open spec fn be32(n: nat) -> Seq<u8> {
    seq![
        (n / 0x100_0000 % 0x100) as u8,
        (n / 0x1_0000 % 0x100) as u8,
        (n / 0x100 % 0x100) as u8,
        (n % 0x100) as u8,
    ]
}

/// The digests for the counters `1..=n`, one after another.
pub open spec fn kdf_stream(z: Seq<u8>, n: nat) -> Seq<u8>
    decreases n,
{
    if n == 0 {
        seq![]
    } else {
        kdf_stream(z, (n - 1) as nat) + digest(z + be32(n))
    }
}

/// How many digests cover `klen` bytes.
pub open spec fn kdf_blocks(klen: nat) -> nat {
    (klen + 31) / 32
}

/// The `klen`-byte mask derived from the seed `z`.
pub open spec fn kdf_spec(z: Seq<u8>, klen: nat) -> Seq<u8> {
    Seq::new(klen, |i: int| kdf_stream(z, kdf_blocks(klen))[i])
}

pub proof fn lemma_kdf_stream_len(z: Seq<u8>, n: nat)
    ensures
        kdf_stream(z, n).len() == 32 * n,
    decreases n,
{
    if n > 0 {
        lemma_kdf_stream_len(z, (n - 1) as nat);
    }
}

/// Appends the bytes of `src` to `out`.
pub fn append_bytes(out: &mut Vec<u8>, src: &[u8])
    ensures
        final(out)@ == old(out)@ + src@,
{
    let mut i: usize = 0;
    while i < src.len()
        invariant
            0 <= i <= src@.len(),
            out@ == old(out)@ + src@.subrange(0, i as int),
        decreases src@.len() - i,
    {
        out.push(src[i]);
        i = i + 1;
        assert(src@.subrange(0, i as int) =~= src@.subrange(0, i - 1) + seq![src@[i - 1]]);
    }
    assert(src@.subrange(0, src@.len() as int) =~= src@);
}

/// Derives a `klen`-byte mask from the seed `z`.
pub fn kdf(z: &[u8], klen: usize) -> (t: Vec<u8>)
    requires
        klen <= MAX_MSG_LEN,
    ensures
        t@ == kdf_spec(z@, klen as nat),
{
    let nblocks: u32 = ((klen as u64 + 31) / 32) as u32;
    let mut stream: Vec<u8> = Vec::new();
    let mut ct: u32 = 1;
    while ct <= nblocks
        invariant
            1 <= ct <= nblocks + 1,
            nblocks == kdf_blocks(klen as nat),
            nblocks <= 0x400_0000,
            stream@ == kdf_stream(z@, (ct - 1) as nat),
        decreases nblocks + 1 - ct,
    {
        let mut seed: Vec<u8> = Vec::new();
        append_bytes(&mut seed, z);
        seed.push((ct / 0x100_0000 % 0x100) as u8);
        seed.push((ct / 0x1_0000 % 0x100) as u8);
        seed.push((ct / 0x100 % 0x100) as u8);
        seed.push((ct % 0x100) as u8);
        assert(seed@ =~= z@ + be32(ct as nat));
        let h = sm3_hash(seed.as_slice());
        assert(h@ =~= digest(seed@));
        append_bytes(&mut stream, h.as_slice());
        ct = ct + 1;
    }
    proof {
        lemma_kdf_stream_len(z@, nblocks as nat);
    }
    let mut t: Vec<u8> = Vec::new();
    let mut i: usize = 0;
    while i < klen
        invariant
            0 <= i <= klen,
            stream@.len() == 32 * nblocks,
            32 * nblocks >= klen,
            stream@ == kdf_stream(z@, kdf_blocks(klen as nat)),
            t@ =~= Seq::new(i as nat, |j: int| stream@[j]),
        decreases klen - i,
    {
        t.push(stream[i]);
        i = i + 1;
    }
    t
}

} // verus!
