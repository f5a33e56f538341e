//! Encrypted values: what one participant holds of each value after
//! masking.

use crate::bytes::{bytes_equal, copy_bytes, copy_rows, rows_equal, rows_view, zeros};
use crate::curves::{
    are_points, is_all_zero, is_point, is_scalar_le, is_written_point, is_written_scalar_le,
    key_share_fits, key_share_holds, Curve,
};
use crate::name_map::{
    entries_map, has_name, lemma_entry_in_map, lemma_same_entries, names_distinct, with_entry,
    NameMap,
};
use crate::values::{
    EddsaSignature, EddsaSignatureView, DIGEST_WIDTH, ECDSA_PUBLIC_KEY_WIDTH,
    EDDSA_PUBLIC_KEY_WIDTH, STORE_ID_WIDTH,
};
use vstd::prelude::*;

verus! {

/// The three prime fields that numbers are encoded in, by the size of the
/// safe prime.
#[derive(Clone, Copy, Debug, PartialEq, Eq, Structural)]
pub enum EncodedModulo {
    /// The field of the 64-bit safe prime.
    U64SafePrime,
    /// The field of the 128-bit safe prime.
    U128SafePrime,
    /// The field of the 256-bit safe prime.
    U256SafePrime,
}

/// A number of a prime field in its encoded form.
#[derive(Clone, Debug, PartialEq, Eq)]
pub struct EncodedModularNumber {
    bytes: Vec<u8>,
    modulo: EncodedModulo,
}

/// What an [`EncodedModularNumber`] holds.
pub struct EncodedNumberView {
    pub bytes: Seq<u8>,
    pub modulo: EncodedModulo,
}

impl View for EncodedModularNumber {
    type V = EncodedNumberView;

    closed spec fn view(&self) -> EncodedNumberView {
        EncodedNumberView { bytes: self.bytes@, modulo: self.modulo }
    }
}

impl EncodedModularNumber {
    /// The number that `bytes` encode in the field of `modulo`; the bytes
    /// are taken as they are.
    pub fn new_unchecked(bytes: Vec<u8>, modulo: EncodedModulo) -> (number: Self)
        ensures
            number@ == (EncodedNumberView { bytes: bytes@, modulo }),
    {
        EncodedModularNumber { bytes, modulo }
    }

    /// The encoded bytes.
    pub fn as_bytes(&self) -> (bytes: &Vec<u8>)
        ensures
            bytes@ == self@.bytes,
    {
        &self.bytes
    }

    /// The field of the number.
    pub fn modulo(&self) -> (modulo: EncodedModulo)
        ensures
            modulo == self@.modulo,
    {
        self.modulo
    }

    /// A number that holds the same.
    pub fn duplicate(&self) -> (copy: Self)
        ensures
            copy@ == self@,
    {
        EncodedModularNumber { bytes: copy_bytes(&self.bytes), modulo: self.modulo }
    }

    /// Whether two numbers hold the same bytes in the same field.
    pub fn same_as(&self, other: &Self) -> (same: bool)
        ensures
            same == (self@ == other@),
    {
        crate::bytes::bytes_equal(&self.bytes, &other.bytes) && self.modulo == other.modulo
    }
}

/// The numbers that a list of encoded numbers holds, in the same order.
pub open spec fn numbers_view(numbers: Seq<EncodedModularNumber>) -> Seq<EncodedNumberView> {
    Seq::new(numbers.len(), |i: int| numbers[i]@)
}

/// The shares of the chunks of a blob, and the byte count of the blob
/// before it was encoded.
#[derive(Clone, Debug, PartialEq, Eq)]
pub struct BlobShares {
    /// One encoded number for each chunk, in order.
    pub value: Vec<EncodedModularNumber>,
    /// The byte count of the blob.
    pub unencoded_size: u64,
}

/// What a [`BlobShares`] holds.
pub struct BlobSharesView {
    pub value: Seq<EncodedNumberView>,
    pub unencoded_size: u64,
}

impl View for BlobShares {
    type V = BlobSharesView;

    open spec fn view(&self) -> BlobSharesView {
        BlobSharesView { value: numbers_view(self.value@), unencoded_size: self.unencoded_size }
    }
}

/// One holder's share of a threshold key: the holder's index, its secret
/// scalar with the least significant byte first, the public point of the
/// key and the public point of every holder.
#[derive(Clone, Debug, PartialEq, Eq)]
pub struct KeyShare {
    /// The index of the holder.
    pub i: u16,
    /// The secret scalar of the holder.
    pub x: Vec<u8>,
    /// The public point of the shared key.
    pub shared_public_key: Vec<u8>,
    /// The public point of each holder, by index.
    pub public_shares: Vec<Vec<u8>>,
}

/// What a [`KeyShare`] holds.
pub struct KeyShareView {
    pub i: u16,
    pub x: Seq<u8>,
    pub shared_public_key: Seq<u8>,
    pub public_shares: Seq<Seq<u8>>,
}

impl View for KeyShare {
    type V = KeyShareView;

    open spec fn view(&self) -> KeyShareView {
        KeyShareView {
            i: self.i,
            x: self.x@,
            shared_public_key: self.shared_public_key@,
            public_shares: rows_view(self.public_shares@),
        }
    }
}

impl KeyShareView {
    /// Whether the share is one of `curve`: a secret scalar in range and
    /// not zero, points of the curve, and parts that fit together.
    pub open spec fn wf(self, curve: Curve) -> bool {
        &&& is_scalar_le(curve, self.x)
        &&& self.x != zeros(32)
        &&& is_point(curve, self.shared_public_key)
        &&& are_points(curve, self.public_shares)
        &&& key_share_fits(curve, self.i, self.x, self.shared_public_key, self.public_shares)
    }
}

/// One holder's share of a signature of ECDSA: two scalars, each with the
/// least significant byte first.
#[derive(Clone, Debug, PartialEq, Eq)]
pub struct EcdsaSignatureShare {
    /// The component `r`.
    pub r: Vec<u8>,
    /// The component `sigma`.
    pub sigma: Vec<u8>,
}

/// What an [`EcdsaSignatureShare`] holds.
pub struct EcdsaSignatureShareView {
    pub r: Seq<u8>,
    pub sigma: Seq<u8>,
}

impl View for EcdsaSignatureShare {
    type V = EcdsaSignatureShareView;

    open spec fn view(&self) -> EcdsaSignatureShareView {
        EcdsaSignatureShareView { r: self.r@, sigma: self.sigma@ }
    }
}

/// The kinds of nested structure.
#[derive(Clone, Copy, Debug, PartialEq, Eq, Structural)]
pub enum Structure {
    /// A list of values of one variant.
    Array,
    /// A pair of values.
    Tuple,
    /// A list of values of any variants.
    NTuple,
    /// Named values.
    Object,
}

/// An encrypted value. Of a nested structure only the kind is kept: none
/// has an interchange form. Decoding makes well-formed values only; of a
/// value put together in place, `is_well_formed` tells whether it is one,
/// and so whether it is read back from its interchange form.
#[derive(Clone, Debug, PartialEq, Eq)]
pub enum EncryptedNadaValue {
    /// A public integer, encoded.
    Integer(EncodedModularNumber),
    /// A public unsigned integer, encoded.
    UnsignedInteger(EncodedModularNumber),
    /// A public boolean, encoded.
    Boolean(EncodedModularNumber),
    /// A secret integer that was not shared.
    SecretInteger(EncodedModularNumber),
    /// A secret unsigned integer that was not shared.
    SecretUnsignedInteger(EncodedModularNumber),
    /// A secret boolean that was not shared.
    SecretBoolean(EncodedModularNumber),
    /// One share of a secret integer.
    ShamirShareInteger(EncodedModularNumber),
    /// One share of a secret unsigned integer.
    ShamirShareUnsignedInteger(EncodedModularNumber),
    /// One share of a secret boolean.
    ShamirShareBoolean(EncodedModularNumber),
    /// One share of each chunk of a secret blob.
    SecretBlob(BlobShares),
    /// One share of a private key of ECDSA.
    EcdsaPrivateKey(KeyShare),
    /// A message digest to sign with ECDSA.
    EcdsaDigestMessage(Vec<u8>),
    /// One share of a signature of ECDSA.
    EcdsaSignature(EcdsaSignatureShare),
    /// A compressed public key of ECDSA.
    EcdsaPublicKey(Vec<u8>),
    /// One share of a private key of EdDSA.
    EddsaPrivateKey(KeyShare),
    /// A message to sign with EdDSA.
    EddsaMessage(Vec<u8>),
    /// A signature of EdDSA.
    EddsaSignature(EddsaSignature),
    /// A public key of EdDSA.
    EddsaPublicKey(Vec<u8>),
    /// The identifier of a stored value.
    StoreId(Vec<u8>),
    /// A nested structure.
    Nested(Structure),
}

/// What an [`EncryptedNadaValue`] holds.
pub enum EncryptedValue {
    Integer(EncodedNumberView),
    UnsignedInteger(EncodedNumberView),
    Boolean(EncodedNumberView),
    SecretInteger(EncodedNumberView),
    SecretUnsignedInteger(EncodedNumberView),
    SecretBoolean(EncodedNumberView),
    ShamirShareInteger(EncodedNumberView),
    ShamirShareUnsignedInteger(EncodedNumberView),
    ShamirShareBoolean(EncodedNumberView),
    SecretBlob(BlobSharesView),
    EcdsaPrivateKey(KeyShareView),
    EcdsaDigestMessage(Seq<u8>),
    EcdsaSignature(EcdsaSignatureShareView),
    EcdsaPublicKey(Seq<u8>),
    EddsaPrivateKey(KeyShareView),
    EddsaMessage(Seq<u8>),
    EddsaSignature(EddsaSignatureView),
    EddsaPublicKey(Seq<u8>),
    StoreId(Seq<u8>),
    Nested(Structure),
}

impl View for EncryptedNadaValue {
    type V = EncryptedValue;

    open spec fn view(&self) -> EncryptedValue {
        match self {
            EncryptedNadaValue::Integer(n) => EncryptedValue::Integer(n@),
            EncryptedNadaValue::UnsignedInteger(n) => EncryptedValue::UnsignedInteger(n@),
            EncryptedNadaValue::Boolean(n) => EncryptedValue::Boolean(n@),
            EncryptedNadaValue::SecretInteger(n) => EncryptedValue::SecretInteger(n@),
            EncryptedNadaValue::SecretUnsignedInteger(n) => EncryptedValue::SecretUnsignedInteger(
                n@,
            ),
            EncryptedNadaValue::SecretBoolean(n) => EncryptedValue::SecretBoolean(n@),
            EncryptedNadaValue::ShamirShareInteger(n) => EncryptedValue::ShamirShareInteger(n@),
            EncryptedNadaValue::ShamirShareUnsignedInteger(n) =>
                EncryptedValue::ShamirShareUnsignedInteger(n@),
            EncryptedNadaValue::ShamirShareBoolean(n) => EncryptedValue::ShamirShareBoolean(n@),
            EncryptedNadaValue::SecretBlob(blob) => EncryptedValue::SecretBlob(blob@),
            EncryptedNadaValue::EcdsaPrivateKey(share) => EncryptedValue::EcdsaPrivateKey(share@),
            EncryptedNadaValue::EcdsaDigestMessage(bytes) => EncryptedValue::EcdsaDigestMessage(
                bytes@,
            ),
            EncryptedNadaValue::EcdsaSignature(share) => EncryptedValue::EcdsaSignature(share@),
            EncryptedNadaValue::EcdsaPublicKey(bytes) => EncryptedValue::EcdsaPublicKey(bytes@),
            EncryptedNadaValue::EddsaPrivateKey(share) => EncryptedValue::EddsaPrivateKey(share@),
            EncryptedNadaValue::EddsaMessage(bytes) => EncryptedValue::EddsaMessage(bytes@),
            EncryptedNadaValue::EddsaSignature(signature) => EncryptedValue::EddsaSignature(
                signature@,
            ),
            EncryptedNadaValue::EddsaPublicKey(bytes) => EncryptedValue::EddsaPublicKey(bytes@),
            EncryptedNadaValue::StoreId(bytes) => EncryptedValue::StoreId(bytes@),
            EncryptedNadaValue::Nested(kind) => EncryptedValue::Nested(*kind),
        }
    }
}

/// The variants of an encrypted value.
#[derive(Clone, Copy, Debug, PartialEq, Eq, Structural)]
pub enum EncryptedType {
    Integer,
    UnsignedInteger,
    Boolean,
    SecretInteger,
    SecretUnsignedInteger,
    SecretBoolean,
    ShamirShareInteger,
    ShamirShareUnsignedInteger,
    ShamirShareBoolean,
    SecretBlob,
    EcdsaPrivateKey,
    EcdsaDigestMessage,
    EcdsaSignature,
    EcdsaPublicKey,
    EddsaPrivateKey,
    EddsaMessage,
    EddsaSignature,
    EddsaPublicKey,
    StoreId,
    Array,
    Tuple,
    NTuple,
    Object,
}

impl EncryptedType {
    /// The tag that names the variant, the same wherever values are
    /// exchanged.
    pub open spec fn tag(self) -> Seq<char> {
        match self {
            EncryptedType::Integer => "Integer"@,
            EncryptedType::UnsignedInteger => "UnsignedInteger"@,
            EncryptedType::Boolean => "Boolean"@,
            EncryptedType::SecretInteger => "SecretInteger"@,
            EncryptedType::SecretUnsignedInteger => "SecretUnsignedInteger"@,
            EncryptedType::SecretBoolean => "SecretBoolean"@,
            EncryptedType::ShamirShareInteger => "ShamirShareInteger"@,
            EncryptedType::ShamirShareUnsignedInteger => "ShamirShareUnsignedInteger"@,
            EncryptedType::ShamirShareBoolean => "ShamirShareBoolean"@,
            EncryptedType::SecretBlob => "SecretBlob"@,
            EncryptedType::EcdsaPrivateKey => "EcdsaPrivateKey"@,
            EncryptedType::EcdsaDigestMessage => "EcdsaDigestMessage"@,
            EncryptedType::EcdsaSignature => "EcdsaSignature"@,
            EncryptedType::EcdsaPublicKey => "EcdsaPublicKey"@,
            EncryptedType::EddsaPrivateKey => "EddsaPrivateKey"@,
            EncryptedType::EddsaMessage => "EddsaMessage"@,
            EncryptedType::EddsaSignature => "EddsaSignature"@,
            EncryptedType::EddsaPublicKey => "EddsaPublicKey"@,
            EncryptedType::StoreId => "StoreId"@,
            EncryptedType::Array => "Array"@,
            EncryptedType::Tuple => "Tuple"@,
            EncryptedType::NTuple => "NTuple"@,
            EncryptedType::Object => "Object"@,
        }
    }

    /// Whether values of the variant have an interchange form: all but the
    /// secret numbers that were not shared and the nested structures.
    pub open spec fn is_exchanged(self) -> bool {
        match self {
            EncryptedType::SecretInteger
            | EncryptedType::SecretUnsignedInteger
            | EncryptedType::SecretBoolean
            | EncryptedType::Array
            | EncryptedType::Tuple
            | EncryptedType::NTuple
            | EncryptedType::Object => false,
            _ => true,
        }
    }

    /// The tag that names the variant.
    pub fn name(&self) -> (name: &'static str)
        ensures
            name@ == self.tag(),
    {
        match self {
            EncryptedType::Integer => "Integer",
            EncryptedType::UnsignedInteger => "UnsignedInteger",
            EncryptedType::Boolean => "Boolean",
            EncryptedType::SecretInteger => "SecretInteger",
            EncryptedType::SecretUnsignedInteger => "SecretUnsignedInteger",
            EncryptedType::SecretBoolean => "SecretBoolean",
            EncryptedType::ShamirShareInteger => "ShamirShareInteger",
            EncryptedType::ShamirShareUnsignedInteger => "ShamirShareUnsignedInteger",
            EncryptedType::ShamirShareBoolean => "ShamirShareBoolean",
            EncryptedType::SecretBlob => "SecretBlob",
            EncryptedType::EcdsaPrivateKey => "EcdsaPrivateKey",
            EncryptedType::EcdsaDigestMessage => "EcdsaDigestMessage",
            EncryptedType::EcdsaSignature => "EcdsaSignature",
            EncryptedType::EcdsaPublicKey => "EcdsaPublicKey",
            EncryptedType::EddsaPrivateKey => "EddsaPrivateKey",
            EncryptedType::EddsaMessage => "EddsaMessage",
            EncryptedType::EddsaSignature => "EddsaSignature",
            EncryptedType::EddsaPublicKey => "EddsaPublicKey",
            EncryptedType::StoreId => "StoreId",
            EncryptedType::Array => "Array",
            EncryptedType::Tuple => "Tuple",
            EncryptedType::NTuple => "NTuple",
            EncryptedType::Object => "Object",
        }
    }
}

impl EncryptedValue {
    /// The variant of the value.
    pub open spec fn variant(self) -> EncryptedType {
        match self {
            EncryptedValue::Integer(_) => EncryptedType::Integer,
            EncryptedValue::UnsignedInteger(_) => EncryptedType::UnsignedInteger,
            EncryptedValue::Boolean(_) => EncryptedType::Boolean,
            EncryptedValue::SecretInteger(_) => EncryptedType::SecretInteger,
            EncryptedValue::SecretUnsignedInteger(_) => EncryptedType::SecretUnsignedInteger,
            EncryptedValue::SecretBoolean(_) => EncryptedType::SecretBoolean,
            EncryptedValue::ShamirShareInteger(_) => EncryptedType::ShamirShareInteger,
            EncryptedValue::ShamirShareUnsignedInteger(_) =>
                EncryptedType::ShamirShareUnsignedInteger,
            EncryptedValue::ShamirShareBoolean(_) => EncryptedType::ShamirShareBoolean,
            EncryptedValue::SecretBlob(_) => EncryptedType::SecretBlob,
            EncryptedValue::EcdsaPrivateKey(_) => EncryptedType::EcdsaPrivateKey,
            EncryptedValue::EcdsaDigestMessage(_) => EncryptedType::EcdsaDigestMessage,
            EncryptedValue::EcdsaSignature(_) => EncryptedType::EcdsaSignature,
            EncryptedValue::EcdsaPublicKey(_) => EncryptedType::EcdsaPublicKey,
            EncryptedValue::EddsaPrivateKey(_) => EncryptedType::EddsaPrivateKey,
            EncryptedValue::EddsaMessage(_) => EncryptedType::EddsaMessage,
            EncryptedValue::EddsaSignature(_) => EncryptedType::EddsaSignature,
            EncryptedValue::EddsaPublicKey(_) => EncryptedType::EddsaPublicKey,
            EncryptedValue::StoreId(_) => EncryptedType::StoreId,
            EncryptedValue::Nested(Structure::Array) => EncryptedType::Array,
            EncryptedValue::Nested(Structure::Tuple) => EncryptedType::Tuple,
            EncryptedValue::Nested(Structure::NTuple) => EncryptedType::NTuple,
            EncryptedValue::Nested(Structure::Object) => EncryptedType::Object,
        }
    }

    /// Whether every number of the value is one of the field of `modulo`.
    pub open spec fn is_in_field(self, modulo: EncodedModulo) -> bool {
        match self {
            EncryptedValue::Integer(n)
            | EncryptedValue::UnsignedInteger(n)
            | EncryptedValue::Boolean(n)
            | EncryptedValue::SecretInteger(n)
            | EncryptedValue::SecretUnsignedInteger(n)
            | EncryptedValue::SecretBoolean(n)
            | EncryptedValue::ShamirShareInteger(n)
            | EncryptedValue::ShamirShareUnsignedInteger(n)
            | EncryptedValue::ShamirShareBoolean(n) => n.modulo == modulo,
            EncryptedValue::SecretBlob(blob) => forall|i: int|
                0 <= i < blob.value.len() ==> (#[trigger] blob.value[i]).modulo == modulo,
            _ => true,
        }
    }

    /// Whether the value is one that decoding makes: byte fields of their
    /// fixed width, scalars in range, points on their curve, key shares
    /// whose parts fit together.
    pub open spec fn wf(self) -> bool {
        match self {
            EncryptedValue::EcdsaPrivateKey(share) => share.wf(Curve::Secp256k1),
            EncryptedValue::EddsaPrivateKey(share) => share.wf(Curve::Ed25519),
            EncryptedValue::EcdsaDigestMessage(bytes) => bytes.len() == DIGEST_WIDTH,
            EncryptedValue::EcdsaSignature(share) => is_scalar_le(Curve::Secp256k1, share.r)
                && is_scalar_le(Curve::Secp256k1, share.sigma),
            EncryptedValue::EcdsaPublicKey(bytes) => bytes.len() == ECDSA_PUBLIC_KEY_WIDTH,
            EncryptedValue::EddsaSignature(signature) => is_point(Curve::Ed25519, signature.r)
                && is_scalar_le(Curve::Ed25519, signature.z),
            EncryptedValue::EddsaPublicKey(bytes) => bytes.len() == EDDSA_PUBLIC_KEY_WIDTH,
            EncryptedValue::StoreId(bytes) => bytes.len() == STORE_ID_WIDTH,
            _ => true,
        }
    }
}

impl EncryptedNadaValue {
    /// Whether the value is well formed, as every decoded value is: byte
    /// fields of their fixed width, scalars in range, points on their
    /// curve in the form they are written in, key shares whose parts fit
    /// together.
    pub fn is_well_formed(&self) -> (ok: bool)
        ensures
            ok == self@.wf(),
    {
        match self {
            EncryptedNadaValue::EcdsaPrivateKey(share) => share.is_well_formed(Curve::Secp256k1),
            EncryptedNadaValue::EddsaPrivateKey(share) => share.is_well_formed(Curve::Ed25519),
            EncryptedNadaValue::EcdsaDigestMessage(bytes) => bytes.len() == DIGEST_WIDTH,
            EncryptedNadaValue::EcdsaSignature(share) => is_written_scalar_le(
                Curve::Secp256k1,
                &share.r,
            ) && is_written_scalar_le(Curve::Secp256k1, &share.sigma),
            EncryptedNadaValue::EcdsaPublicKey(bytes) => bytes.len() == ECDSA_PUBLIC_KEY_WIDTH,
            EncryptedNadaValue::EddsaSignature(signature) => {
                let r = signature.r();
                let z = signature.z();
                is_written_point(Curve::Ed25519, &r) && is_written_scalar_le(Curve::Ed25519, &z)
            },
            EncryptedNadaValue::EddsaPublicKey(bytes) => bytes.len() == EDDSA_PUBLIC_KEY_WIDTH,
            EncryptedNadaValue::StoreId(bytes) => bytes.len() == STORE_ID_WIDTH,
            _ => true,
        }
    }

    /// Whether every number of the value is one of the field of `modulo`.
    #[verifier::loop_isolation(false)]
    pub fn in_field(&self, modulo: EncodedModulo) -> (inside: bool)
        ensures
            inside == self@.is_in_field(modulo),
    {
        match self {
            EncryptedNadaValue::Integer(n)
            | EncryptedNadaValue::UnsignedInteger(n)
            | EncryptedNadaValue::Boolean(n)
            | EncryptedNadaValue::SecretInteger(n)
            | EncryptedNadaValue::SecretUnsignedInteger(n)
            | EncryptedNadaValue::SecretBoolean(n)
            | EncryptedNadaValue::ShamirShareInteger(n)
            | EncryptedNadaValue::ShamirShareUnsignedInteger(n)
            | EncryptedNadaValue::ShamirShareBoolean(n) => n.modulo() == modulo,
            EncryptedNadaValue::SecretBlob(blob) => {
                let mut i: usize = 0;
                while i < blob.value.len()
                    invariant
                        i <= blob.value.len(),
                        forall|k: int| 0 <= k < i ==> (#[trigger] blob@.value[k]).modulo == modulo,
                    decreases blob.value.len() - i,
                {
                    if blob.value[i].modulo() != modulo {
                        assert(blob@.value[i as int].modulo != modulo);
                        return false;
                    }
                    i = i + 1;
                }
                true
            },
            _ => true,
        }
    }

    /// The variant of the value.
    pub fn to_type(&self) -> (variant: EncryptedType)
        ensures
            variant == self@.variant(),
    {
        match self {
            EncryptedNadaValue::Integer(_) => EncryptedType::Integer,
            EncryptedNadaValue::UnsignedInteger(_) => EncryptedType::UnsignedInteger,
            EncryptedNadaValue::Boolean(_) => EncryptedType::Boolean,
            EncryptedNadaValue::SecretInteger(_) => EncryptedType::SecretInteger,
            EncryptedNadaValue::SecretUnsignedInteger(_) => EncryptedType::SecretUnsignedInteger,
            EncryptedNadaValue::SecretBoolean(_) => EncryptedType::SecretBoolean,
            EncryptedNadaValue::ShamirShareInteger(_) => EncryptedType::ShamirShareInteger,
            EncryptedNadaValue::ShamirShareUnsignedInteger(_) =>
                EncryptedType::ShamirShareUnsignedInteger,
            EncryptedNadaValue::ShamirShareBoolean(_) => EncryptedType::ShamirShareBoolean,
            EncryptedNadaValue::SecretBlob(_) => EncryptedType::SecretBlob,
            EncryptedNadaValue::EcdsaPrivateKey(_) => EncryptedType::EcdsaPrivateKey,
            EncryptedNadaValue::EcdsaDigestMessage(_) => EncryptedType::EcdsaDigestMessage,
            EncryptedNadaValue::EcdsaSignature(_) => EncryptedType::EcdsaSignature,
            EncryptedNadaValue::EcdsaPublicKey(_) => EncryptedType::EcdsaPublicKey,
            EncryptedNadaValue::EddsaPrivateKey(_) => EncryptedType::EddsaPrivateKey,
            EncryptedNadaValue::EddsaMessage(_) => EncryptedType::EddsaMessage,
            EncryptedNadaValue::EddsaSignature(_) => EncryptedType::EddsaSignature,
            EncryptedNadaValue::EddsaPublicKey(_) => EncryptedType::EddsaPublicKey,
            EncryptedNadaValue::StoreId(_) => EncryptedType::StoreId,
            EncryptedNadaValue::Nested(Structure::Array) => EncryptedType::Array,
            EncryptedNadaValue::Nested(Structure::Tuple) => EncryptedType::Tuple,
            EncryptedNadaValue::Nested(Structure::NTuple) => EncryptedType::NTuple,
            EncryptedNadaValue::Nested(Structure::Object) => EncryptedType::Object,
        }
    }
}

impl BlobShares {
    /// Shares that hold the same.
    pub fn duplicate(&self) -> (copy: Self)
        ensures
            copy@ == self@,
    {
        let mut value: Vec<EncodedModularNumber> = Vec::new();
        let mut i: usize = 0;
        while i < self.value.len()
            invariant
                i <= self.value.len(),
                value@.len() == i,
                forall|k: int| 0 <= k < i ==> (#[trigger] value@[k])@ == self.value@[k]@,
            decreases self.value.len() - i,
        {
            value.push(self.value[i].duplicate());
            i = i + 1;
        }
        assert(numbers_view(value@) =~= numbers_view(self.value@));
        BlobShares { value, unencoded_size: self.unencoded_size }
    }
}

impl BlobShares {
    /// Whether two sets of shares hold the same.
    pub fn same_as(&self, other: &Self) -> (same: bool)
        ensures
            same == (self@ == other@),
    {
        if self.unencoded_size != other.unencoded_size || self.value.len() != other.value.len() {
            assert(self@.value.len() != other@.value.len() || self@.unencoded_size
                != other@.unencoded_size);
            return false;
        }
        let mut i: usize = 0;
        while i < self.value.len()
            invariant
                i <= self.value.len(),
                self.value.len() == other.value.len(),
                self.unencoded_size == other.unencoded_size,
                forall|k: int| 0 <= k < i ==> self.value@[k]@ == other.value@[k]@,
            decreases self.value.len() - i,
        {
            if !self.value[i].same_as(&other.value[i]) {
                assert(self@.value[i as int] != other@.value[i as int]);
                return false;
            }
            i = i + 1;
        }
        assert(self@.value =~= other@.value);
        true
    }
}

impl KeyShare {
    /// Whether the share is one of `curve`: a secret scalar in range and
    /// not zero, points of the curve in the form they are written in, and
    /// parts that fit together.
    pub fn is_well_formed(&self, curve: Curve) -> (ok: bool)
        ensures
            ok == self@.wf(curve),
    {
        if !is_written_scalar_le(curve, &self.x) || is_all_zero(&self.x) {
            return false;
        }
        if !is_written_point(curve, &self.shared_public_key) {
            return false;
        }
        let mut i: usize = 0;
        while i < self.public_shares.len()
            invariant
                i <= self.public_shares.len(),
                forall|k: int| 0 <= k < i ==> is_point(curve, #[trigger] self@.public_shares[k]),
            decreases self.public_shares.len() - i,
        {
            if !is_written_point(curve, &self.public_shares[i]) {
                assert(!is_point(curve, self@.public_shares[i as int]));
                return false;
            }
            i = i + 1;
        }
        key_share_holds(curve, self.i, &self.x, &self.shared_public_key, &self.public_shares)
    }

    /// Whether two shares hold the same.
    pub fn same_as(&self, other: &Self) -> (same: bool)
        ensures
            same == (self@ == other@),
    {
        self.i == other.i && bytes_equal(&self.x, &other.x) && bytes_equal(
            &self.shared_public_key,
            &other.shared_public_key,
        ) && rows_equal(&self.public_shares, &other.public_shares)
    }

    /// A share that holds the same.
    pub fn duplicate(&self) -> (copy: Self)
        ensures
            copy@ == self@,
    {
        KeyShare {
            i: self.i,
            x: copy_bytes(&self.x),
            shared_public_key: copy_bytes(&self.shared_public_key),
            public_shares: copy_rows(&self.public_shares),
        }
    }
}

impl EcdsaSignatureShare {
    /// Whether two shares hold the same.
    pub fn same_as(&self, other: &Self) -> (same: bool)
        ensures
            same == (self@ == other@),
    {
        bytes_equal(&self.r, &other.r) && bytes_equal(&self.sigma, &other.sigma)
    }

    /// A share that holds the same.
    pub fn duplicate(&self) -> (copy: Self)
        ensures
            copy@ == self@,
    {
        EcdsaSignatureShare { r: copy_bytes(&self.r), sigma: copy_bytes(&self.sigma) }
    }
}

impl EncryptedNadaValue {
    /// Whether two values are of the same variant and hold the same.
    pub fn same_as(&self, other: &Self) -> (same: bool)
        ensures
            same == (self@ == other@),
    {
        match (self, other) {
            (EncryptedNadaValue::Integer(a), EncryptedNadaValue::Integer(b)) => a.same_as(b),
            (EncryptedNadaValue::UnsignedInteger(a), EncryptedNadaValue::UnsignedInteger(b)) =>
                a.same_as(b),
            (EncryptedNadaValue::Boolean(a), EncryptedNadaValue::Boolean(b)) => a.same_as(b),
            (EncryptedNadaValue::SecretInteger(a), EncryptedNadaValue::SecretInteger(b)) =>
                a.same_as(b),
            (
                EncryptedNadaValue::SecretUnsignedInteger(a),
                EncryptedNadaValue::SecretUnsignedInteger(b),
            ) => a.same_as(b),
            (EncryptedNadaValue::SecretBoolean(a), EncryptedNadaValue::SecretBoolean(b)) =>
                a.same_as(b),
            (
                EncryptedNadaValue::ShamirShareInteger(a),
                EncryptedNadaValue::ShamirShareInteger(b),
            ) => a.same_as(b),
            (
                EncryptedNadaValue::ShamirShareUnsignedInteger(a),
                EncryptedNadaValue::ShamirShareUnsignedInteger(b),
            ) => a.same_as(b),
            (
                EncryptedNadaValue::ShamirShareBoolean(a),
                EncryptedNadaValue::ShamirShareBoolean(b),
            ) => a.same_as(b),
            (EncryptedNadaValue::SecretBlob(a), EncryptedNadaValue::SecretBlob(b)) => a.same_as(b),
            (EncryptedNadaValue::EcdsaPrivateKey(a), EncryptedNadaValue::EcdsaPrivateKey(b)) =>
                a.same_as(b),
            (
                EncryptedNadaValue::EcdsaDigestMessage(a),
                EncryptedNadaValue::EcdsaDigestMessage(b),
            ) => bytes_equal(a, b),
            (EncryptedNadaValue::EcdsaSignature(a), EncryptedNadaValue::EcdsaSignature(b)) =>
                a.same_as(b),
            (EncryptedNadaValue::EcdsaPublicKey(a), EncryptedNadaValue::EcdsaPublicKey(b)) =>
                bytes_equal(a, b),
            (EncryptedNadaValue::EddsaPrivateKey(a), EncryptedNadaValue::EddsaPrivateKey(b)) =>
                a.same_as(b),
            (EncryptedNadaValue::EddsaMessage(a), EncryptedNadaValue::EddsaMessage(b)) =>
                bytes_equal(a, b),
            (EncryptedNadaValue::EddsaSignature(a), EncryptedNadaValue::EddsaSignature(b)) =>
                a.same_as(b),
            (EncryptedNadaValue::EddsaPublicKey(a), EncryptedNadaValue::EddsaPublicKey(b)) =>
                bytes_equal(a, b),
            (EncryptedNadaValue::StoreId(a), EncryptedNadaValue::StoreId(b)) => bytes_equal(a, b),
            (EncryptedNadaValue::Nested(a), EncryptedNadaValue::Nested(b)) => *a == *b,
            _ => false,
        }
    }

    /// A value that holds the same.
    pub fn duplicate(&self) -> (copy: Self)
        ensures
            copy@ == self@,
    {
        match self {
            EncryptedNadaValue::Integer(n) => EncryptedNadaValue::Integer(n.duplicate()),
            EncryptedNadaValue::UnsignedInteger(n) => EncryptedNadaValue::UnsignedInteger(
                n.duplicate(),
            ),
            EncryptedNadaValue::Boolean(n) => EncryptedNadaValue::Boolean(n.duplicate()),
            EncryptedNadaValue::SecretInteger(n) => EncryptedNadaValue::SecretInteger(
                n.duplicate(),
            ),
            EncryptedNadaValue::SecretUnsignedInteger(n) =>
                EncryptedNadaValue::SecretUnsignedInteger(n.duplicate()),
            EncryptedNadaValue::SecretBoolean(n) => EncryptedNadaValue::SecretBoolean(
                n.duplicate(),
            ),
            EncryptedNadaValue::ShamirShareInteger(n) => EncryptedNadaValue::ShamirShareInteger(
                n.duplicate(),
            ),
            EncryptedNadaValue::ShamirShareUnsignedInteger(n) =>
                EncryptedNadaValue::ShamirShareUnsignedInteger(n.duplicate()),
            EncryptedNadaValue::ShamirShareBoolean(n) => EncryptedNadaValue::ShamirShareBoolean(
                n.duplicate(),
            ),
            EncryptedNadaValue::SecretBlob(blob) => EncryptedNadaValue::SecretBlob(
                blob.duplicate(),
            ),
            EncryptedNadaValue::EcdsaPrivateKey(share) => EncryptedNadaValue::EcdsaPrivateKey(
                share.duplicate(),
            ),
            EncryptedNadaValue::EcdsaDigestMessage(bytes) =>
                EncryptedNadaValue::EcdsaDigestMessage(copy_bytes(bytes)),
            EncryptedNadaValue::EcdsaSignature(share) => EncryptedNadaValue::EcdsaSignature(
                share.duplicate(),
            ),
            EncryptedNadaValue::EcdsaPublicKey(bytes) => EncryptedNadaValue::EcdsaPublicKey(
                copy_bytes(bytes),
            ),
            EncryptedNadaValue::EddsaPrivateKey(share) => EncryptedNadaValue::EddsaPrivateKey(
                share.duplicate(),
            ),
            EncryptedNadaValue::EddsaMessage(bytes) => EncryptedNadaValue::EddsaMessage(
                copy_bytes(bytes),
            ),
            EncryptedNadaValue::EddsaSignature(signature) => EncryptedNadaValue::EddsaSignature(
                signature.duplicate(),
            ),
            EncryptedNadaValue::EddsaPublicKey(bytes) => EncryptedNadaValue::EddsaPublicKey(
                copy_bytes(bytes),
            ),
            EncryptedNadaValue::StoreId(bytes) => EncryptedNadaValue::StoreId(copy_bytes(bytes)),
            EncryptedNadaValue::Nested(kind) => EncryptedNadaValue::Nested(*kind),
        }
    }
}

/// A set of named encrypted values, each name once. The view is the
/// sequence of entries in the order in which the names first came.
#[derive(Debug, PartialEq, Eq)]
pub struct EncryptedNadaValues {
    values: NameMap<EncryptedNadaValue>,
}

impl View for EncryptedNadaValues {
    type V = Seq<(Seq<char>, EncryptedValue)>;

    closed spec fn view(&self) -> Seq<(Seq<char>, EncryptedValue)> {
        self.values@
    }
}

impl EncryptedNadaValues {
    /// No name occurs twice.
    pub open spec fn wf(&self) -> bool {
        names_distinct(self@)
    }

    /// The mapping from names to values.
    pub open spec fn as_map(&self) -> Map<Seq<char>, EncryptedValue> {
        entries_map(self@)
    }

    /// A set without values.
    pub fn new() -> (made: Self)
        ensures
            made@ == Seq::<(Seq<char>, EncryptedValue)>::empty(),
            made.wf(),
    {
        EncryptedNadaValues { values: NameMap::new() }
    }

    /// Puts `value` under `name`, in the place of what was there under
    /// that name.
    pub fn insert(&mut self, name: String, value: EncryptedNadaValue)
        ensures
            final(self)@ == with_entry(old(self)@, name@, value@),
            final(self).as_map() == old(self).as_map().insert(name@, value@),
            final(self).wf(),
    {
        self.values.insert(name, value);
    }

    /// The number of values.
    pub fn length(&self) -> (count: usize)
        ensures
            count == self@.len(),
            self.wf(),
    {
        self.values.len()
    }

    /// The name at position `i` in the order of the entries.
    pub fn name_at(&self, i: usize) -> (name: &String)
        requires
            i < self@.len(),
        ensures
            name@ == self@[i as int].0,
    {
        self.values.name_at(i)
    }

    /// The value at position `i` in the order of the entries.
    pub fn value_at(&self, i: usize) -> (value: &EncryptedNadaValue)
        requires
            i < self@.len(),
        ensures
            value@ == self@[i as int].1,
    {
        self.values.value_at(i)
    }

    /// The position of the value called `name`, if there is one.
    pub fn position(&self, name: &String) -> (place: Option<usize>)
        ensures
            self.wf(),
            place.is_some() == has_name(self@, name@),
            place matches Some(i) ==> i < self@.len() && self@[i as int].0 == name@,
    {
        self.values.position(name)
    }

    /// The value called `name`, if there is one.
    pub fn get(&self, name: &String) -> (value: Option<&EncryptedNadaValue>)
        ensures
            value.is_some() == self.as_map().dom().contains(name@),
            value matches Some(v) ==> v@ == self.as_map()[name@],
    {
        self.values.get(name)
    }

    /// Whether every value of the set is well formed and has its numbers
    /// in the field of `modulo`: what reading the set back from its
    /// interchange form asks of it.
    pub fn is_well_formed(&self, modulo: EncodedModulo) -> (ok: bool)
        ensures
            ok == forall|i: int|
                0 <= i < self@.len() ==> (#[trigger] self@[i]).1.wf() && self@[i].1.is_in_field(
                    modulo,
                ),
    {
        let count = self.length();
        let mut i: usize = 0;
        while i < count
            invariant
                i <= count,
                count == self@.len(),
                forall|k: int|
                    0 <= k < i ==> (#[trigger] self@[k]).1.wf() && self@[k].1.is_in_field(modulo),
            decreases count - i,
        {
            let value = self.value_at(i);
            if !value.is_well_formed() || !value.in_field(modulo) {
                assert(!(self@[i as int].1.wf() && self@[i as int].1.is_in_field(modulo)));
                return false;
            }
            i = i + 1;
        }
        true
    }

    /// Whether two sets hold the same values under the same names, in
    /// whatever order.
    pub fn same_as(&self, other: &EncryptedNadaValues) -> (same: bool)
        ensures
            same == (self.as_map() == other.as_map()),
    {
        let mine = self.length();
        let theirs = other.length();
        let mut k: usize = 0;
        while k < mine
            invariant
                k <= mine,
                mine == self@.len(),
                self.wf(),
                other.wf(),
                forall|m: int|
                    0 <= m < k ==> other.as_map().dom().contains((#[trigger] self@[m]).0)
                        && other.as_map()[self@[m].0] == self@[m].1,
            decreases mine - k,
        {
            proof {
                lemma_entry_in_map(self@, k as int);
            }
            match other.get(self.name_at(k)) {
                None => {
                    assert(self.as_map().dom().contains(self@[k as int].0));
                    return false;
                },
                Some(value) => {
                    if !value.same_as(self.value_at(k)) {
                        return false;
                    }
                },
            }
            k = k + 1;
        }
        let mut k: usize = 0;
        while k < theirs
            invariant
                k <= theirs,
                theirs == other@.len(),
                self.wf(),
                other.wf(),
                forall|m: int|
                    0 <= m < k ==> self.as_map().dom().contains((#[trigger] other@[m]).0),
            decreases theirs - k,
        {
            proof {
                lemma_entry_in_map(other@, k as int);
            }
            if self.get(other.name_at(k)).is_none() {
                assert(other.as_map().dom().contains(other@[k as int].0));
                return false;
            }
            k = k + 1;
        }
        proof {
            lemma_same_entries(self@, other@);
        }
        true
    }

    /// A set that holds the same.
    pub fn duplicate(&self) -> (copy: Self)
        ensures
            copy@ == self@,
            copy.wf(),
    {
        let count = self.values.len();
        let mut entries: Vec<(String, EncryptedNadaValue)> = Vec::new();
        let mut i: usize = 0;
        while i < count
            invariant
                i <= count,
                count == self@.len(),
                entries@.len() == i,
                forall|k: int|
                    0 <= k < i ==> (#[trigger] entries@[k]).0@ == self@[k].0 && entries@[k].1@
                        == self@[k].1,
            decreases count - i,
        {
            entries.push((self.values.name_at(i).clone(), self.values.value_at(i).duplicate()));
            i = i + 1;
        }
        assert(Seq::new(entries@.len(), |i: int| (entries@[i].0@, entries@[i].1@)) =~= self@);
        EncryptedNadaValues { values: NameMap::from_entries(entries) }
    }
}

} // verus!
