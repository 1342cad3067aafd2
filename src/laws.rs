//! Properties of the protocol, stated over the spec functions that the
//! contexts' contracts use.
use crate::cipher::{
    all_zero, c1_of, cofactor, decrypt_spec, encrypt_spec, lemma_sealed_len, retried_from, xor_seq,
    CipherError, POINT_LEN,
};
use crate::engine::{mul_affine, on_curve};
use crate::kdf::{digest, kdf_spec, DIGEST_LEN};
use vstd::prelude::*;

verus! {

/// What a valid key pair `(pk, sk)` and a sound curve engine give for the
/// ephemeral scalar `k`: `k·G` encodes, lies on the curve and is not the
/// identity, and `sk·(k·G) = k·pk`.
pub open spec fn shared_secret_agrees(pk: Seq<u8>, sk: Seq<u8>, k: Seq<u8>) -> bool {
    match c1_of(k) {
        Some(c1) => on_curve(c1) == Some(true) && mul_affine(cofactor(), c1) is Some && mul_affine(
            sk,
            c1,
        ) == mul_affine(k, pk),
        None => false,
    }
}

/// Unmasking twice with the same mask gives the bytes back.
pub proof fn lemma_xor_twice(a: Seq<u8>, b: Seq<u8>)
    requires
        a.len() <= b.len(),
    ensures
        xor_seq(xor_seq(a, b), b) == a,
{
    assert forall|i: int| 0 <= i < a.len() implies xor_seq(xor_seq(a, b), b)[i] == a[i] by {
        let x = a[i];
        let y = b[i];
        assert((x ^ y) ^ y == x) by (bit_vector);
    }
    assert(xor_seq(xor_seq(a, b), b) =~= a);
}

/// Round trip: the private key recovers every `klen`-byte message that was
/// encrypted to the matching public key.
pub proof fn lemma_round_trip(klen: nat, pk: Seq<u8>, sk: Seq<u8>, msg: Seq<u8>, k: Seq<u8>)
    requires
        msg.len() == klen,
        encrypt_spec(klen, pk, msg, k) is Ok,
        shared_secret_agrees(pk, sk, k),
    ensures
        decrypt_spec(klen, sk, encrypt_spec(klen, pk, msg, k)->Ok_0) == Ok::<Seq<u8>, CipherError>(
            msg,
        ),
{
    let c = encrypt_spec(klen, pk, msg, k)->Ok_0;
    let c1 = c1_of(k)->Some_0;
    let (x2, y2) = mul_affine(k, pk)->Some_0;
    let t = kdf_spec(x2 + y2, klen);
    let c2 = xor_seq(msg, t);
    let c3 = digest(x2 + msg + y2);
    assert(c == c1 + c2 + c3);
    assert(c.subrange(0, POINT_LEN as int) =~= c1);
    assert(c.subrange(POINT_LEN as int, POINT_LEN + klen) =~= c2);
    assert(c.subrange(POINT_LEN + klen, c.len() as int) =~= c3);
    lemma_xor_twice(msg, t);
}

/// Flipping any single bit of the `C3` segment of a ciphertext that
/// decrypts makes decryption fail with an integrity error.
pub proof fn lemma_tag_tamper_detected(klen: nat, sk: Seq<u8>, c: Seq<u8>, i: int, j: u8)
    requires
        decrypt_spec(klen, sk, c) is Ok,
        POINT_LEN + klen <= i < c.len(),
        j < 8,
    ensures
        decrypt_spec(klen, sk, c.update(i, c[i] ^ (1u8 << j))) == Err::<Seq<u8>, CipherError>(
            CipherError::IntegrityMismatch,
        ),
{
    let x = c[i];
    assert(x ^ (1u8 << j) != x) by (bit_vector)
        requires
            j < 8,
    ;
    let d = c.update(i, x ^ (1u8 << j));
    let lo = POINT_LEN + klen;
    assert(d.subrange(0, POINT_LEN as int) =~= c.subrange(0, POINT_LEN as int));
    assert(d.subrange(POINT_LEN as int, lo) =~= c.subrange(POINT_LEN as int, lo));
    assert(d.subrange(lo, d.len() as int)[i - lo] != c.subrange(lo, c.len() as int)[i - lo]);
}

/// A ciphertext whose `C1` segment does not decode to a point on the curve
/// is refused before any mask is derived.
pub proof fn lemma_off_curve_rejected(klen: nat, sk: Seq<u8>, c: Seq<u8>)
    requires
        c.len() == POINT_LEN + klen + DIGEST_LEN,
        on_curve(c.subrange(0, POINT_LEN as int)) != Some(true),
    ensures
        decrypt_spec(klen, sk, c) == Err::<Seq<u8>, CipherError>(
            if on_curve(c.subrange(0, POINT_LEN as int)) is None {
                CipherError::Malformed
            } else {
                CipherError::InvalidPoint
            },
        ),
{
}

/// Opening a ciphertext with another message length than the one it was
/// sealed for fails with a length error.
pub proof fn lemma_length_mismatch(
    klen_enc: nat,
    klen_dec: nat,
    pk: Seq<u8>,
    sk: Seq<u8>,
    msg: Seq<u8>,
    k: Seq<u8>,
)
    requires
        msg.len() == klen_enc,
        encrypt_spec(klen_enc, pk, msg, k) is Ok,
        klen_dec != klen_enc,
    ensures
        decrypt_spec(klen_dec, sk, encrypt_spec(klen_enc, pk, msg, k)->Ok_0) == Err::<
            Seq<u8>,
            CipherError,
        >(CipherError::Malformed),
{
    lemma_sealed_len(klen_enc, pk, msg, k);
}

/// Two encryptions of one message, with any two ephemeral scalars, both
/// decrypt to that message.
pub proof fn lemma_recovery_independent_of_scalar(
    klen: nat,
    pk: Seq<u8>,
    sk: Seq<u8>,
    msg: Seq<u8>,
    k1: Seq<u8>,
    k2: Seq<u8>,
)
    requires
        msg.len() == klen,
        encrypt_spec(klen, pk, msg, k1) is Ok,
        encrypt_spec(klen, pk, msg, k2) is Ok,
        shared_secret_agrees(pk, sk, k1),
        shared_secret_agrees(pk, sk, k2),
    ensures
        decrypt_spec(klen, sk, encrypt_spec(klen, pk, msg, k1)->Ok_0) == decrypt_spec(
            klen,
            sk,
            encrypt_spec(klen, pk, msg, k2)->Ok_0,
        ),
        decrypt_spec(klen, sk, encrypt_spec(klen, pk, msg, k1)->Ok_0) == Ok::<Seq<u8>, CipherError>(
            msg,
        ),
{
    lemma_round_trip(klen, pk, sk, msg, k1);
    lemma_round_trip(klen, pk, sk, msg, k2);
}

/// No ciphertext is ever sealed with an all-zero mask: an ephemeral scalar
/// whose mask is all zero yields the degenerate-mask outcome, on which
/// encryption draws again.
pub proof fn lemma_degenerate_mask_never_sealed(klen: nat, pk: Seq<u8>, msg: Seq<u8>, k: Seq<u8>)
    requires
        encrypt_spec(klen, pk, msg, k) is Ok,
    ensures
        mul_affine(k, pk) is Some,
        !all_zero(kdf_spec(mul_affine(k, pk)->Some_0.0 + mul_affine(k, pk)->Some_0.1, klen)),
{
}

/// Flipping any single bit of the `C2` segment of a ciphertext that decrypts
/// makes decryption fail with an integrity error, unless the two different
/// plaintexts have the same SM3 tag under the shared coordinates: a digest
/// collision.
pub proof fn lemma_body_tamper_detected(klen: nat, sk: Seq<u8>, c: Seq<u8>, i: int, j: u8)
    requires
        decrypt_spec(klen, sk, c) is Ok,
        POINT_LEN <= i < POINT_LEN + klen,
        j < 8,
    ensures
        ({
            let d = c.update(i, c[i] ^ (1u8 << j));
            let (x2, y2) = mul_affine(sk, c.subrange(0, POINT_LEN as int))->Some_0;
            let m = decrypt_spec(klen, sk, c)->Ok_0;
            decrypt_spec(klen, sk, d) == Err::<Seq<u8>, CipherError>(CipherError::IntegrityMismatch)
                || (decrypt_spec(klen, sk, d) is Ok && decrypt_spec(klen, sk, d)->Ok_0 != m
                && digest(x2 + decrypt_spec(klen, sk, d)->Ok_0 + y2) == digest(x2 + m + y2))
        }),
{
    let x = c[i];
    let d = c.update(i, x ^ (1u8 << j));
    let lo = POINT_LEN + klen;
    let c1 = c.subrange(0, POINT_LEN as int);
    let (x2, y2) = mul_affine(sk, c1)->Some_0;
    let t = kdf_spec(x2 + y2, klen);
    assert(d.subrange(0, POINT_LEN as int) =~= c1);
    assert(d.subrange(lo, d.len() as int) =~= c.subrange(lo, c.len() as int));
    let c2 = c.subrange(POINT_LEN as int, lo);
    let e2 = d.subrange(POINT_LEN as int, lo);
    let k = i - POINT_LEN;
    let y = t[k];
    assert((x ^ (1u8 << j)) ^ y != x ^ y) by (bit_vector)
        requires
            j < 8,
    ;
    assert(xor_seq(e2, t)[k] != xor_seq(c2, t)[k]);
}

/// Round trip through the retrying encryption: a ciphertext that `encrypt`
/// returned after the draws `ks` opens to the message under the private key
/// whose shared secret agrees for the accepted draw.
pub proof fn lemma_encrypt_round_trip(
    klen: nat,
    pk: Seq<u8>,
    sk: Seq<u8>,
    msg: Seq<u8>,
    ks: Seq<Seq<u8>>,
    c: Seq<u8>,
)
    requires
        msg.len() == klen,
        retried_from(klen, pk, msg, ks, Ok::<Seq<u8>, CipherError>(c)),
        shared_secret_agrees(pk, sk, ks.last()),
    ensures
        decrypt_spec(klen, sk, c) == Ok::<Seq<u8>, CipherError>(msg),
{
    lemma_round_trip(klen, pk, sk, msg, ks.last());
}

} // verus!
