//! Scalars and points of the two signature curves, as the byte strings
//! that stand for them.

use crate::bytes::{
    be_nat, bytes_equal, le_nat, lemma_pad_back_keeps_number, lemma_pad_front_keeps_number,
    pad_back, pad_front, rows_view, zeros,
};
use generic_ec::curves::{Ed25519, Secp256k1};
use generic_ec::serde::CurveName;
use generic_ec::{NonZero, Point, Scalar, SecretScalar};
use key_share::{DirtyCoreKeyShare, DirtyKeyInfo, Validate};
use vstd::prelude::*;

verus! {

/// The two curves that key material and signatures live on.
#[derive(Clone, Copy, Debug, PartialEq, Eq, Structural)]
pub enum Curve {
    /// The curve of ECDSA values.
    Secp256k1,
    /// The curve of EdDSA values.
    Ed25519,
}

/// The order of the group of secp256k1.
pub open spec fn secp256k1_order() -> nat {
    0xFFFFFFFF_FFFFFFFF_FFFFFFFF_FFFFFFFE_BAAEDCE6_AF48A03B_BFD25E8C_D0364141nat
}

/// The order of the prime-order group of Ed25519.
pub open spec fn ed25519_order() -> nat {
    0x10000000_00000000_00000000_00000000_14DEF9DE_A2F79CD6_5812631A_5CF5D3EDnat
}

/// The order of the group of `curve`.
pub open spec fn group_order(curve: Curve) -> nat {
    match curve {
        Curve::Secp256k1 => secp256k1_order(),
        Curve::Ed25519 => ed25519_order(),
    }
}

/// The compressed encoding of the point of secp256k1 that `bytes` encode,
/// compressed or not, where they encode a point of the group other than
/// its identity.
pub uninterp spec fn secp256k1_point(bytes: Seq<u8>) -> Option<Seq<u8>>;

/// The encoding of the point of Ed25519 that `bytes` encode, where they
/// encode a point of the prime-order group other than its identity.
pub uninterp spec fn ed25519_point(bytes: Seq<u8>) -> Option<Seq<u8>>;

/// Whether a share of a key of secp256k1 is consistent: index `i`, secret
/// scalar `x` (least significant byte first), the shared public point and
/// every holder's public point.
pub uninterp spec fn secp256k1_key_share(
    i: u16,
    x: Seq<u8>,
    shared: Seq<u8>,
    shares: Seq<Seq<u8>>,
) -> bool;

/// Whether a share of a key of Ed25519 is consistent: index `i`, secret
/// scalar `x` (least significant byte first), the shared public point and
/// every holder's public point.
pub uninterp spec fn ed25519_key_share(
    i: u16,
    x: Seq<u8>,
    shared: Seq<u8>,
    shares: Seq<Seq<u8>>,
) -> bool;

/// The full-width encoding of the scalar of secp256k1 that `bytes` hold,
/// most significant byte first.
///
/// Trusted: the body is `generic_ec::Scalar::from_be_bytes` on secp256k1,
/// which takes up to 32 bytes that encode a number below the group order,
/// and `to_be_bytes` to turn the scalar into its 32 bytes.
#[verifier::external_body]
pub(crate) fn secp256k1_scalar_from_be_bytes(bytes: &Vec<u8>) -> (scalar: Option<Vec<u8>>)
    ensures
        scalar.is_some() == (bytes@.len() <= 32 && be_nat(bytes@) < secp256k1_order()),
        scalar matches Some(full) ==> full@ == pad_front(bytes@, 32),
{
    match Scalar::<Secp256k1>::from_be_bytes(bytes) {
        Ok(scalar) => Some(scalar.to_be_bytes().to_vec()),
        Err(_) => None,
    }
}

/// The full-width encoding of the scalar of secp256k1 that `bytes` hold,
/// least significant byte first.
///
/// Trusted: the body is `generic_ec::Scalar::from_le_bytes` on secp256k1,
/// which takes up to 32 bytes that encode a number below the group order,
/// and `to_le_bytes` to turn the scalar into its 32 bytes.
#[verifier::external_body]
pub(crate) fn secp256k1_scalar_from_le_bytes(bytes: &Vec<u8>) -> (scalar: Option<Vec<u8>>)
    ensures
        scalar.is_some() == (bytes@.len() <= 32 && le_nat(bytes@) < secp256k1_order()),
        scalar matches Some(full) ==> full@ == pad_back(bytes@, 32),
{
    match Scalar::<Secp256k1>::from_le_bytes(bytes) {
        Ok(scalar) => Some(scalar.to_le_bytes().to_vec()),
        Err(_) => None,
    }
}

/// The full-width encoding of the scalar of Ed25519 that `bytes` hold,
/// least significant byte first.
///
/// Trusted: the body is `generic_ec::Scalar::from_le_bytes` on Ed25519,
/// which takes up to 32 bytes that encode a number below the group order,
/// and `to_le_bytes` to turn the scalar into its 32 bytes.
#[verifier::external_body]
pub(crate) fn ed25519_scalar_from_le_bytes(bytes: &Vec<u8>) -> (scalar: Option<Vec<u8>>)
    ensures
        scalar.is_some() == (bytes@.len() <= 32 && le_nat(bytes@) < ed25519_order()),
        scalar matches Some(full) ==> full@ == pad_back(bytes@, 32),
{
    match Scalar::<Ed25519>::from_le_bytes(bytes) {
        Ok(scalar) => Some(scalar.to_le_bytes().to_vec()),
        Err(_) => None,
    }
}

/// The compressed encoding of the point of secp256k1 that `bytes` encode.
///
/// Trusted: the body decodes with `generic_ec::Point::from_bytes`, refuses
/// the identity with `NonZero::from_point` and encodes with
/// `to_bytes(true)`. The contract names the outcome, and adds that the
/// encoding is 33 bytes long and decodes to itself.
#[verifier::external_body]
pub(crate) fn secp256k1_point_from_bytes(bytes: &Vec<u8>) -> (point: Option<Vec<u8>>)
    ensures
        point.is_some() == secp256k1_point(bytes@).is_some(),
        point matches Some(compressed) ==> {
            &&& secp256k1_point(bytes@) == Some(compressed@)
            &&& secp256k1_point(compressed@) == Some(compressed@)
            &&& compressed@.len() == 33
        },
{
    match Point::<Secp256k1>::from_bytes(bytes).ok().and_then(NonZero::from_point) {
        Some(point) => Some(point.to_bytes(true).to_vec()),
        None => None,
    }
}

/// The encoding of the point of Ed25519 that `bytes` encode.
///
/// Trusted: the body decodes with `generic_ec::Point::from_bytes`, refuses
/// the identity with `NonZero::from_point` and encodes with
/// `to_bytes(true)`. The contract names the outcome, and adds that the
/// encoding is 32 bytes long and decodes to itself.
#[verifier::external_body]
pub(crate) fn ed25519_point_from_bytes(bytes: &Vec<u8>) -> (point: Option<Vec<u8>>)
    ensures
        point.is_some() == ed25519_point(bytes@).is_some(),
        point matches Some(compressed) ==> {
            &&& ed25519_point(bytes@) == Some(compressed@)
            &&& ed25519_point(compressed@) == Some(compressed@)
            &&& compressed@.len() == 32
        },
{
    match Point::<Ed25519>::from_bytes(bytes).ok().and_then(NonZero::from_point) {
        Some(point) => Some(point.to_bytes(true).to_vec()),
        None => None,
    }
}

/// Whether the parts of a share of a key of secp256k1 fit together.
///
/// Trusted: the body rebuilds a `key_share::DirtyCoreKeyShare` without a
/// sharing setup from the encoded parts and asks its `validate`. The
/// contract names the answer; parts that do not decode give `false`.
#[verifier::external_body]
pub(crate) fn secp256k1_key_share_holds(
    i: u16,
    x: &Vec<u8>,
    shared: &Vec<u8>,
    shares: &Vec<Vec<u8>>,
) -> (holds: bool)
    ensures
        holds == secp256k1_key_share(i, x@, shared@, rows_view(shares@)),
{
    let point = |b: &Vec<u8>| Point::<Secp256k1>::from_bytes(b).ok().and_then(NonZero::from_point);
    let x = SecretScalar::from_le_bytes(x).ok().and_then(NonZero::from_secret_scalar);
    let public_shares: Option<Vec<_>> = shares.iter().map(point).collect();
    match (x, point(shared), public_shares) {
        (Some(x), Some(shared_public_key), Some(public_shares)) => {
            let curve = CurveName::new();
            let key_info = DirtyKeyInfo { curve, shared_public_key, public_shares, vss_setup: None };
            DirtyCoreKeyShare { i, key_info, x }.validate().is_ok()
        },
        _ => false,
    }
}

/// Whether the parts of a share of a key of Ed25519 fit together.
///
/// Trusted: the body rebuilds a `key_share::DirtyCoreKeyShare` without a
/// sharing setup from the encoded parts and asks its `validate`. The
/// contract names the answer; parts that do not decode give `false`.
#[verifier::external_body]
pub(crate) fn ed25519_key_share_holds(
    i: u16,
    x: &Vec<u8>,
    shared: &Vec<u8>,
    shares: &Vec<Vec<u8>>,
) -> (holds: bool)
    ensures
        holds == ed25519_key_share(i, x@, shared@, rows_view(shares@)),
{
    let point = |b: &Vec<u8>| Point::<Ed25519>::from_bytes(b).ok().and_then(NonZero::from_point);
    let x = SecretScalar::from_le_bytes(x).ok().and_then(NonZero::from_secret_scalar);
    let public_shares: Option<Vec<_>> = shares.iter().map(point).collect();
    match (x, point(shared), public_shares) {
        (Some(x), Some(shared_public_key), Some(public_shares)) => {
            let curve = CurveName::new();
            let key_info = DirtyKeyInfo { curve, shared_public_key, public_shares, vss_setup: None };
            DirtyCoreKeyShare { i, key_info, x }.validate().is_ok()
        },
        _ => false,
    }
}

/// Whether `bytes`, most significant first, read as a scalar of `curve`:
/// at most 32 bytes that encode a number below the order of the group.
pub open spec fn reads_as_scalar_be(curve: Curve, bytes: Seq<u8>) -> bool {
    bytes.len() <= 32 && be_nat(bytes) < group_order(curve)
}

/// Whether `bytes`, least significant first, read as a scalar of `curve`:
/// at most 32 bytes that encode a number below the order of the group.
pub open spec fn reads_as_scalar_le(curve: Curve, bytes: Seq<u8>) -> bool {
    bytes.len() <= 32 && le_nat(bytes) < group_order(curve)
}

/// Whether `bytes` are the full-width encoding of a scalar of `curve`,
/// most significant byte first.
pub open spec fn is_scalar_be(curve: Curve, bytes: Seq<u8>) -> bool {
    bytes.len() == 32 && be_nat(bytes) < group_order(curve)
}

/// Whether `bytes` are the full-width encoding of a scalar of `curve`,
/// least significant byte first.
pub open spec fn is_scalar_le(curve: Curve, bytes: Seq<u8>) -> bool {
    bytes.len() == 32 && le_nat(bytes) < group_order(curve)
}

/// The encoding of the point of `curve` that `bytes` encode, where they
/// encode a point of the group other than its identity.
pub open spec fn curve_point(curve: Curve, bytes: Seq<u8>) -> Option<Seq<u8>> {
    match curve {
        Curve::Secp256k1 => secp256k1_point(bytes),
        Curve::Ed25519 => ed25519_point(bytes),
    }
}

/// Bytes in the encoding that a point of `curve` is written in.
pub open spec fn point_width(curve: Curve) -> nat {
    match curve {
        Curve::Secp256k1 => 33,
        Curve::Ed25519 => 32,
    }
}

/// Whether `bytes` are the encoding that a point of `curve`, other than
/// the identity, is written in.
pub open spec fn is_point(curve: Curve, bytes: Seq<u8>) -> bool {
    curve_point(curve, bytes) == Some(bytes) && bytes.len() == point_width(curve)
}

/// Whether each of `rows` is the encoding of a point of `curve`.
pub open spec fn are_points(curve: Curve, rows: Seq<Seq<u8>>) -> bool {
    forall|i: int| 0 <= i < rows.len() ==> is_point(curve, #[trigger] rows[i])
}

/// Whether the parts of a share of a key of `curve` fit together.
pub open spec fn key_share_fits(
    curve: Curve,
    i: u16,
    x: Seq<u8>,
    shared: Seq<u8>,
    shares: Seq<Seq<u8>>,
) -> bool {
    match curve {
        Curve::Secp256k1 => secp256k1_key_share(i, x, shared, shares),
        Curve::Ed25519 => ed25519_key_share(i, x, shared, shares),
    }
}

/// Reads a scalar of secp256k1 from up to 32 bytes, most significant
/// first, and gives its full-width encoding in the same order.
pub fn scalar_from_be_bytes(bytes: &Vec<u8>) -> (scalar: Option<Vec<u8>>)
    ensures
        scalar.is_some() == reads_as_scalar_be(Curve::Secp256k1, bytes@),
        scalar matches Some(full) ==> full@ == pad_front(bytes@, 32) && is_scalar_be(
            Curve::Secp256k1,
            full@,
        ),
{
    let scalar = secp256k1_scalar_from_be_bytes(bytes);
    proof {
        if scalar.is_some() {
            lemma_pad_front_keeps_number(bytes@, 32);
        }
    }
    scalar
}

/// Reads a scalar of `curve` from up to 32 bytes, least significant first,
/// and gives its full-width encoding in the same order.
pub fn scalar_from_le_bytes(curve: Curve, bytes: &Vec<u8>) -> (scalar: Option<Vec<u8>>)
    ensures
        scalar.is_some() == reads_as_scalar_le(curve, bytes@),
        scalar matches Some(full) ==> full@ == pad_back(bytes@, 32) && is_scalar_le(curve, full@),
{
    let scalar = match curve {
        Curve::Secp256k1 => secp256k1_scalar_from_le_bytes(bytes),
        Curve::Ed25519 => ed25519_scalar_from_le_bytes(bytes),
    };
    proof {
        if scalar.is_some() {
            lemma_pad_back_keeps_number(bytes@, 32);
        }
    }
    scalar
}

/// Reads the encoding of a point of `curve` other than the identity, and
/// gives the encoding that the point is written in.
pub fn point_from_bytes(curve: Curve, bytes: &Vec<u8>) -> (point: Option<Vec<u8>>)
    ensures
        point.is_some() == curve_point(curve, bytes@).is_some(),
        point matches Some(written) ==> curve_point(curve, bytes@) == Some(written@) && is_point(
            curve,
            written@,
        ),
{
    match curve {
        Curve::Secp256k1 => secp256k1_point_from_bytes(bytes),
        Curve::Ed25519 => ed25519_point_from_bytes(bytes),
    }
}

/// Whether `bytes` are the encoding that a point of `curve`, other than
/// the identity, is written in.
pub fn is_written_point(curve: Curve, bytes: &Vec<u8>) -> (written: bool)
    ensures
        written == is_point(curve, bytes@),
{
    match point_from_bytes(curve, bytes) {
        Some(point) => bytes_equal(&point, bytes),
        None => false,
    }
}

/// Whether `bytes` are the full-width encoding of a scalar of `curve`,
/// least significant byte first.
pub fn is_written_scalar_le(curve: Curve, bytes: &Vec<u8>) -> (written: bool)
    ensures
        written == is_scalar_le(curve, bytes@),
{
    bytes.len() == 32 && scalar_from_le_bytes(curve, bytes).is_some()
}

/// Whether the parts of a share of a key of `curve` fit together.
pub fn key_share_holds(
    curve: Curve,
    i: u16,
    x: &Vec<u8>,
    shared: &Vec<u8>,
    shares: &Vec<Vec<u8>>,
) -> (holds: bool)
    ensures
        holds == key_share_fits(curve, i, x@, shared@, rows_view(shares@)),
{
    match curve {
        Curve::Secp256k1 => secp256k1_key_share_holds(i, x, shared, shares),
        Curve::Ed25519 => ed25519_key_share_holds(i, x, shared, shares),
    }
}

/// Whether every byte of `bytes` is zero.
pub fn is_all_zero(bytes: &Vec<u8>) -> (all: bool)
    ensures
        all == (bytes@ == zeros(bytes@.len())),
{
    let mut i: usize = 0;
    while i < bytes.len()
        invariant
            i <= bytes.len(),
            forall|k: int| 0 <= k < i ==> bytes@[k] == 0u8,
        decreases bytes.len() - i,
    {
        if bytes[i] != 0 {
            assert(zeros(bytes@.len())[i as int] == 0u8);
            return false;
        }
        i = i + 1;
    }
    assert(bytes@ =~= zeros(bytes@.len()));
    true
}

} // verus!
