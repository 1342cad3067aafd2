//! The SM2 encryption protocol: ciphertext layout `C1 ∥ C2 ∥ C3`, masking,
//! integrity tag, and the encryption and decryption contexts.
use crate::engine::{
    base_mul_enc, base_point_mul, mul_affine, on_curve, point_check, point_mul_affine,
    random_scalar, sm3_hash,
};
use crate::kdf::{append_bytes, digest, kdf, kdf_spec, DIGEST_LEN, MAX_MSG_LEN};
use vstd::prelude::*;

verus! {

/// Width of an uncompressed point encoding, the `C1` segment.
pub const POINT_LEN: usize = 65;

/// How many random scalars encryption draws before it gives up on
/// degenerate masks.
pub const MAX_ATTEMPTS: u32 = 64;

/// Why an encryption or a decryption failed.
#[derive(Clone, Copy, Debug, PartialEq, Eq, Structural)]
pub enum CipherError {
    /// The ciphertext has the wrong length, or `C1` encodes no point.
    Malformed,
    /// A point is off the curve, or a product that must not be the identity is.
    InvalidPoint,
    /// The derived mask is all zero bytes.
    DegenerateMask,
    /// The recomputed tag differs from `C3`.
    IntegrityMismatch,
}

/// A result of bytes, seen as a sequence.
pub open spec fn bytes_result(r: Result<Vec<u8>, CipherError>) -> Result<Seq<u8>, CipherError> {
    match r {
        Ok(v) => Ok(v@),
        Err(e) => Err(e),
    }
}

/// Every byte of `t` is zero (vacuously so for an empty `t`).
pub open spec fn all_zero(t: Seq<u8>) -> bool {
    forall|i: int| 0 <= i < t.len() ==> t[i] == 0
}

/// Byte-wise exclusive or, over the length of `a`.
pub open spec fn xor_seq(a: Seq<u8>, b: Seq<u8>) -> Seq<u8> {
    Seq::new(a.len(), |i: int| a[i] ^ b[i])
}

/// The cofactor of the curve, as a big-endian scalar.
pub open spec fn cofactor() -> Seq<u8> {
    seq![1u8]
}

/// The `C1` segment for the ephemeral scalar `k`: the encoding of `k·G`.
pub open spec fn c1_of(k: Seq<u8>) -> Option<Seq<u8>> {
    match base_mul_enc(k) {
        Some(e) => Some(Seq::new(POINT_LEN as nat, |i: int| e[i])),
        None => None,
    }
}

/// The outcome `r` of an encryption that drew the scalars `ks` in turn:
/// every draw but the last gave a degenerate mask, `r` is what the last draw
/// gives, and a degenerate outcome comes only after `MAX_ATTEMPTS` draws.
pub open spec fn retried_from(
    klen: nat,
    pk: Seq<u8>,
    msg: Seq<u8>,
    ks: Seq<Seq<u8>>,
    r: Result<Seq<u8>, CipherError>,
) -> bool {
    &&& 1 <= ks.len() <= MAX_ATTEMPTS
    &&& forall|i: int|
        0 <= i < ks.len() - 1 ==> #[trigger] encrypt_spec(klen, pk, msg, ks[i]) == Err::<
            Seq<u8>,
            CipherError,
        >(CipherError::DegenerateMask)
    &&& r == encrypt_spec(klen, pk, msg, ks.last())
    &&& r == Err::<Seq<u8>, CipherError>(CipherError::DegenerateMask) ==> ks.len() == MAX_ATTEMPTS
}

/// Seals `msg` with the mask `t` under the shared coordinates `(x2, y2)`.
pub open spec fn seal_spec(
    c1: Seq<u8>,
    x2: Seq<u8>,
    y2: Seq<u8>,
    msg: Seq<u8>,
    t: Seq<u8>,
) -> Result<Seq<u8>, CipherError> {
    if all_zero(t) {
        Err(CipherError::DegenerateMask)
    } else {
        Ok(c1 + xor_seq(msg, t) + digest(x2 + msg + y2))
    }
}

/// Opens `c2` with the mask `t` and checks it against the tag `c3`.
pub open spec fn open_spec(
    x2: Seq<u8>,
    y2: Seq<u8>,
    c2: Seq<u8>,
    c3: Seq<u8>,
    t: Seq<u8>,
) -> Result<Seq<u8>, CipherError> {
    if all_zero(t) {
        Err(CipherError::DegenerateMask)
    } else if digest(x2 + xor_seq(c2, t) + y2) == c3 {
        Ok(xor_seq(c2, t))
    } else {
        Err(CipherError::IntegrityMismatch)
    }
}

/// The ciphertext of `msg` under the public point `pk` (encoded) for the
/// ephemeral scalar `k`, with `klen`-byte masks.
pub open spec fn encrypt_spec(klen: nat, pk: Seq<u8>, msg: Seq<u8>, k: Seq<u8>) -> Result<
    Seq<u8>,
    CipherError,
> {
    match c1_of(k) {
        None => Err(CipherError::InvalidPoint),
        Some(c1) => if mul_affine(cofactor(), pk) is None {
            Err(CipherError::InvalidPoint)
        } else {
            match mul_affine(k, pk) {
                None => Err(CipherError::InvalidPoint),
                Some((x2, y2)) => seal_spec(c1, x2, y2, msg, kdf_spec(x2 + y2, klen)),
            }
        },
    }
}

/// The plaintext that the private scalar `sk` recovers from `c`, for
/// `klen`-byte messages.
pub open spec fn decrypt_spec(klen: nat, sk: Seq<u8>, c: Seq<u8>) -> Result<Seq<u8>, CipherError> {
    if c.len() != POINT_LEN + klen + DIGEST_LEN {
        Err(CipherError::Malformed)
    } else {
        let c1 = c.subrange(0, POINT_LEN as int);
        match on_curve(c1) {
            None => Err(CipherError::Malformed),
            Some(false) => Err(CipherError::InvalidPoint),
            Some(true) => if mul_affine(cofactor(), c1) is None {
                Err(CipherError::InvalidPoint)
            } else {
                match mul_affine(sk, c1) {
                    None => Err(CipherError::InvalidPoint),
                    Some((x2, y2)) => open_spec(
                        x2,
                        y2,
                        c.subrange(POINT_LEN as int, POINT_LEN + klen),
                        c.subrange(POINT_LEN + klen, c.len() as int),
                        kdf_spec(x2 + y2, klen),
                    ),
                }
            },
        }
    }
}

/// Whether every byte of `t` is zero.
pub fn is_degenerate_mask(t: &[u8]) -> (r: bool)
    ensures
        r == all_zero(t@),
{
    let mut i: usize = 0;
    while i < t.len()
        invariant
            0 <= i <= t@.len(),
            forall|j: int| 0 <= j < i ==> t@[j] == 0,
        decreases t@.len() - i,
    {
        if t[i] != 0 {
            return false;
        }
        i = i + 1;
    }
    true
}

/// Byte-wise exclusive or of `a` with the first `a.len()` bytes of `b`.
pub fn xor_bytes(a: &[u8], b: &[u8]) -> (r: Vec<u8>)
    requires
        a@.len() <= b@.len(),
    ensures
        r@ == xor_seq(a@, b@),
{
    let mut r: Vec<u8> = Vec::new();
    let mut i: usize = 0;
    while i < a.len()
        invariant
            0 <= i <= a@.len(),
            a@.len() <= b@.len(),
            r@ =~= Seq::new(i as nat, |j: int| a@[j] ^ b@[j]),
        decreases a@.len() - i,
    {
        r.push(a[i] ^ b[i]);
        i = i + 1;
    }
    r
}

/// Lays out the ciphertext `c1 ∥ (msg ⊕ t) ∥ SM3(x2 ∥ msg ∥ y2)`, or refuses
/// an all-zero mask.
pub fn seal_with_mask(c1: &[u8], x2: &[u8], y2: &[u8], msg: &[u8], t: &[u8]) -> (r: Result<
    Vec<u8>,
    CipherError,
>)
    requires
        msg@.len() == t@.len(),
    ensures
        bytes_result(r) == seal_spec(c1@, x2@, y2@, msg@, t@),
{
    if is_degenerate_mask(t) {
        return Err(CipherError::DegenerateMask);
    }
    let c2 = xor_bytes(msg, t);
    let mut tagged: Vec<u8> = Vec::new();
    append_bytes(&mut tagged, x2);
    append_bytes(&mut tagged, msg);
    append_bytes(&mut tagged, y2);
    let c3 = sm3_hash(tagged.as_slice());
    assert(c3@ =~= digest(x2@ + msg@ + y2@));
    let mut out: Vec<u8> = Vec::new();
    append_bytes(&mut out, c1);
    append_bytes(&mut out, c2.as_slice());
    append_bytes(&mut out, c3.as_slice());
    Ok(out)
}

/// Unmasks `c2` with `t` and releases it only if its tag equals `c3`.
pub fn open_with_mask(x2: &[u8], y2: &[u8], c2: &[u8], c3: &[u8], t: &[u8]) -> (r: Result<
    Vec<u8>,
    CipherError,
>)
    requires
        c2@.len() == t@.len(),
    ensures
        bytes_result(r) == open_spec(x2@, y2@, c2@, c3@, t@),
{
    if is_degenerate_mask(t) {
        return Err(CipherError::DegenerateMask);
    }
    let m = xor_bytes(c2, t);
    let mut tagged: Vec<u8> = Vec::new();
    append_bytes(&mut tagged, x2);
    append_bytes(&mut tagged, m.as_slice());
    append_bytes(&mut tagged, y2);
    let u = sm3_hash(tagged.as_slice());
    assert(u@ =~= digest(x2@ + m@ + y2@));
    if bytes_equal(u.as_slice(), c3) {
        Ok(m)
    } else {
        Err(CipherError::IntegrityMismatch)
    }
}

/// Whether `a` and `b` hold the same bytes.
pub fn bytes_equal(a: &[u8], b: &[u8]) -> (r: bool)
    ensures
        r == (a@ == b@),
{
    if a.len() != b.len() {
        return false;
    }
    let mut i: usize = 0;
    while i < a.len()
        invariant
            0 <= i <= a@.len(),
            a@.len() == b@.len(),
            forall|j: int| 0 <= j < i ==> a@[j] == b@[j],
        decreases a@.len() - i,
    {
        if a[i] != b[i] {
            return false;
        }
        i = i + 1;
    }
    assert(a@ =~= b@);
    true
}

/// Big-endian bytes of the cofactor.
fn cofactor_bytes() -> (r: Vec<u8>)
    ensures
        r@ == cofactor(),
{
    let mut r: Vec<u8> = Vec::new();
    r.push(1u8);
    assert(r@ =~= cofactor());
    r
}

/// Sends messages of a fixed length to one recipient.
pub struct EncryptCtx {
    klen: usize,
    pk_b: Vec<u8>,
}

/// Opens ciphertexts of messages of a fixed length with one private key.
pub struct DecryptCtx {
    klen: usize,
    sk_b: Vec<u8>,
}

impl EncryptCtx {
    /// The message length, in bytes.
    pub closed spec fn msg_len(&self) -> nat {
        self.klen as nat
    }

    /// The recipient's public point, uncompressed encoding.
    pub closed spec fn public_key(&self) -> Seq<u8> {
        self.pk_b@
    }

    /// A context for `klen`-byte messages to the public point encoded by
    /// `pk_b`. The point is not checked here.
    pub fn new(klen: usize, pk_b: Vec<u8>) -> (r: EncryptCtx)
        requires
            klen <= MAX_MSG_LEN,
        ensures
            r.msg_len() == klen,
            r.public_key() == pk_b@,
    {
        EncryptCtx { klen, pk_b }
    }

    /// Encrypts `msg` with the ephemeral scalar `k` (big-endian bytes): one
    /// attempt, which reports a degenerate mask instead of retrying.
    pub fn encrypt_with_scalar(&self, msg: &[u8], k: &[u8]) -> (r: Result<Vec<u8>, CipherError>)
        requires
            msg@.len() == self.msg_len(),
            self.msg_len() <= MAX_MSG_LEN,
        ensures
            bytes_result(r) == encrypt_spec(self.msg_len(), self.public_key(), msg@, k@),
            r matches Ok(c) ==> c@[0] == 0x04,
    {
        let c1 = match base_point_mul(k) {
            Some(e) => e,
            None => return Err(CipherError::InvalidPoint),
        };
        assert(c1@ =~= Seq::new(POINT_LEN as nat, |i: int| c1@[i]));
        let h = cofactor_bytes();
        if point_mul_affine(h.as_slice(), self.pk_b.as_slice()).is_none() {
            return Err(CipherError::InvalidPoint);
        }
        let (x2, y2) = match point_mul_affine(k, self.pk_b.as_slice()) {
            Some(s) => s,
            None => return Err(CipherError::InvalidPoint),
        };
        let mut seed: Vec<u8> = Vec::new();
        append_bytes(&mut seed, x2.as_slice());
        append_bytes(&mut seed, y2.as_slice());
        let t = kdf(seed.as_slice(), self.klen);
        seal_with_mask(c1.as_slice(), x2.as_slice(), y2.as_slice(), msg, t.as_slice())
    }

    /// Encrypts `msg`, drawing a fresh random scalar for each attempt until
    /// the mask is not degenerate, at most `MAX_ATTEMPTS` times.
    pub fn encrypt(&self, msg: &[u8]) -> (r: Result<Vec<u8>, CipherError>)
        requires
            msg@.len() == self.msg_len(),
            self.msg_len() <= MAX_MSG_LEN,
        ensures
            exists|ks: Seq<Seq<u8>>|
                retried_from(self.msg_len(), self.public_key(), msg@, ks, bytes_result(r)),
            r matches Ok(c) ==> c@.len() == POINT_LEN + self.msg_len() + DIGEST_LEN && c@[0]
                == 0x04,
            mul_affine(cofactor(), self.public_key()) is None ==> r == Err::<
                Vec<u8>,
                CipherError,
            >(CipherError::InvalidPoint),
    {
        let ghost mut draws: Seq<Seq<u8>> = seq![];
        let mut attempt: u32 = 0;
        while attempt < MAX_ATTEMPTS
            invariant
                msg@.len() == self.msg_len(),
                self.msg_len() <= MAX_MSG_LEN,
                attempt <= MAX_ATTEMPTS,
                draws.len() == attempt,
                forall|i: int|
                    0 <= i < draws.len() ==> #[trigger] encrypt_spec(
                        self.msg_len(),
                        self.public_key(),
                        msg@,
                        draws[i],
                    ) == Err::<Seq<u8>, CipherError>(CipherError::DegenerateMask),
                attempt > 0 ==> mul_affine(cofactor(), self.public_key()) is Some,
            decreases MAX_ATTEMPTS - attempt,
        {
            let k = random_scalar();
            let r = self.encrypt_with_scalar(msg, k.as_slice());
            proof {
                let ks = draws.push(k@);
                assert(ks.last() == k@);
                assert(forall|i: int| 0 <= i < draws.len() ==> ks[i] == draws[i]);
                draws = ks;
            }
            match r {
                Err(CipherError::DegenerateMask) => {},
                _ => {
                    proof {
                        if r is Ok {
                            lemma_sealed_len(self.msg_len(), self.public_key(), msg@, k@);
                        }
                        assert(retried_from(
                            self.msg_len(),
                            self.public_key(),
                            msg@,
                            draws,
                            bytes_result(r),
                        ));
                    }
                    return r;
                },
            }
            assert(mul_affine(cofactor(), self.public_key()) is Some);
            attempt = attempt + 1;
        }
        assert(encrypt_spec(self.msg_len(), self.public_key(), msg@, draws[draws.len() - 1])
            == Err::<Seq<u8>, CipherError>(CipherError::DegenerateMask));
        assert(retried_from(
            self.msg_len(),
            self.public_key(),
            msg@,
            draws,
            Err(CipherError::DegenerateMask),
        ));
        Err(CipherError::DegenerateMask)
    }
}

impl DecryptCtx {
    /// The message length, in bytes.
    pub closed spec fn msg_len(&self) -> nat {
        self.klen as nat
    }

    /// The private scalar, big-endian bytes.
    pub closed spec fn secret_key(&self) -> Seq<u8> {
        self.sk_b@
    }

    /// A context for `klen`-byte messages, opened with the private scalar
    /// `sk_b` (big-endian bytes).
    pub fn new(klen: usize, sk_b: Vec<u8>) -> (r: DecryptCtx)
        requires
            klen <= MAX_MSG_LEN,
        ensures
            r.msg_len() == klen,
            r.secret_key() == sk_b@,
    {
        DecryptCtx { klen, sk_b }
    }

    /// Decrypts `cipher` and releases the plaintext only once its tag checks.
    pub fn decrypt(&self, cipher: &[u8]) -> (r: Result<Vec<u8>, CipherError>)
        requires
            self.msg_len() <= MAX_MSG_LEN,
        ensures
            bytes_result(r) == decrypt_spec(self.msg_len(), self.secret_key(), cipher@),
    {
        if cipher.len() != POINT_LEN + self.klen + DIGEST_LEN {
            return Err(CipherError::Malformed);
        }
        let c1 = slice_bytes(cipher, 0, POINT_LEN);
        match point_check(c1.as_slice()) {
            None => return Err(CipherError::Malformed),
            Some(false) => return Err(CipherError::InvalidPoint),
            Some(true) => {},
        }
        let h = cofactor_bytes();
        if point_mul_affine(h.as_slice(), c1.as_slice()).is_none() {
            return Err(CipherError::InvalidPoint);
        }
        let (x2, y2) = match point_mul_affine(self.sk_b.as_slice(), c1.as_slice()) {
            Some(s) => s,
            None => return Err(CipherError::InvalidPoint),
        };
        let mut seed: Vec<u8> = Vec::new();
        append_bytes(&mut seed, x2.as_slice());
        append_bytes(&mut seed, y2.as_slice());
        let t = kdf(seed.as_slice(), self.klen);
        let c2 = slice_bytes(cipher, POINT_LEN, POINT_LEN + self.klen);
        let c3 = slice_bytes(cipher, POINT_LEN + self.klen, cipher.len());
        open_with_mask(x2.as_slice(), y2.as_slice(), c2.as_slice(), c3.as_slice(), t.as_slice())
    }
}

/// The bytes of `s` from `lo` up to `hi`.
fn slice_bytes(s: &[u8], lo: usize, hi: usize) -> (r: Vec<u8>)
    requires
        lo <= hi <= s@.len(),
    ensures
        r@ == s@.subrange(lo as int, hi as int),
{
    let mut r: Vec<u8> = Vec::new();
    let mut i: usize = lo;
    while i < hi
        invariant
            lo <= i <= hi <= s@.len(),
            r@ =~= s@.subrange(lo as int, i as int),
        decreases hi - i,
    {
        r.push(s[i]);
        i = i + 1;
    }
    r
}

/// A successful encryption is `POINT_LEN + klen + DIGEST_LEN` bytes long.
pub proof fn lemma_sealed_len(klen: nat, pk: Seq<u8>, msg: Seq<u8>, k: Seq<u8>)
    requires
        msg.len() == klen,
        encrypt_spec(klen, pk, msg, k) is Ok,
    ensures
        encrypt_spec(klen, pk, msg, k)->Ok_0.len() == POINT_LEN + klen + DIGEST_LEN,
{
}

} // verus!
