//! The curve engine and the SM3 digest, reached through `libsm`.
//!
//! A scalar is held as big-endian bytes, a point as its uncompressed encoding
//! (`0x04 ∥ x ∥ y`, 65 bytes) and affine coordinates as 32-byte big-endian
//! field elements.
use libsm::sm2::ecc::EccCtx;
use libsm::sm3::hash::Sm3Hash;
use num_bigint::BigUint;
use vstd::prelude::*;

verus! {

/// The SM3 digest of `data`.
pub uninterp spec fn sm3_of(data: Seq<u8>) -> Seq<u8>;

/// The uncompressed encoding of `k·G`, or `None` where the engine fails.
pub uninterp spec fn base_mul_enc(k: Seq<u8>) -> Option<Seq<u8>>;

/// The affine coordinates of `m·P`, where `P` is the point encoded by `p`;
/// `None` where `p` encodes no point of the curve, the product is the
/// identity, or the engine fails.
pub uninterp spec fn mul_affine(m: Seq<u8>, p: Seq<u8>) -> Option<(Seq<u8>, Seq<u8>)>;

/// Whether the point encoded by `p` satisfies the curve equation; `None`
/// where `p` encodes no point or the check fails.
pub uninterp spec fn on_curve(p: Seq<u8>) -> Option<bool>;

/// Relies on `Sm3Hash::new` and `Sm3Hash::get_hash`: a 32-byte digest that
/// depends on `data` alone.
#[verifier::external_body]
pub(crate) fn sm3_hash(data: &[u8]) -> (r: Vec<u8>)
    ensures
        r@ == sm3_of(data@),
        r@.len() == 32,
{
    Sm3Hash::new(data).get_hash().to_vec()
}

/// Relies on `EccCtx::random_uint`: a fresh random scalar, as big-endian
/// bytes. Nothing is known of its value.
#[verifier::external_body]
pub(crate) fn random_scalar() -> (r: Vec<u8>) {
    EccCtx::new().random_uint().to_bytes_be()
}

/// Relies on `EccCtx::mul` on `EccCtx::generator` for `k·G`, encoded by
/// `EccCtx::point_to_bytes` in uncompressed form: the tag `0x04` and two
/// 32-byte coordinates.
#[verifier::external_body]
pub(crate) fn base_point_mul(k: &[u8]) -> (r: Option<Vec<u8>>)
    ensures
        match r {
            Some(e) => base_mul_enc(k@) == Some(e@) && e@.len() == 65 && e@[0] == 0x04,
            None => base_mul_enc(k@) is None,
        },
{
    let ctx = EccCtx::new();
    let g = ctx.generator().ok()?;
    let p = ctx.mul(&BigUint::from_bytes_be(k), &g).ok()?;
    ctx.point_to_bytes(&p, false).ok()
}

/// Relies on `EccCtx::mul` for `m·P`. The point is decoded by
/// `EccCtx::bytes_to_point`, and the product is turned into coordinates by
/// `EccCtx::to_affine`, which fails on the identity, and
/// `FieldElem::to_bytes`, which gives 32 bytes.
#[verifier::external_body]
pub(crate) fn point_mul_affine(m: &[u8], p: &[u8]) -> (r: Option<(Vec<u8>, Vec<u8>)>)
    ensures
        match r {
            Some((x, y)) => mul_affine(m@, p@) == Some((x@, y@)) && x@.len() == 32 && y@.len()
                == 32,
            None => mul_affine(m@, p@) is None,
        },
{
    let ctx = EccCtx::new();
    let q = ctx.bytes_to_point(p).ok()?;
    let s = ctx.mul(&BigUint::from_bytes_be(m), &q).ok()?;
    let (x, y) = ctx.to_affine(&s).ok()?;
    Some((x.to_bytes(), y.to_bytes()))
}

/// Relies on `EccCtx::check_point`, after decoding by
/// `EccCtx::bytes_to_point`.
#[verifier::external_body]
pub(crate) fn point_check(p: &[u8]) -> (r: Option<bool>)
    ensures
        r == on_curve(p@),
{
    let ctx = EccCtx::new();
    let q = ctx.bytes_to_point(p).ok()?;
    ctx.check_point(&q).ok()
}

} // verus!
