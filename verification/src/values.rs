//! Cleartext values: the closed set of variants, how each is built and
//! what each can be turned into.

use crate::bytes::{
    bytes_equal, copy_bytes, fixed_width, lemma_full_width_is_padded, pad_back, pad_front, zeros,
};
use crate::curves::{
    is_all_zero, is_point, is_scalar_be, is_scalar_le, point_from_bytes, reads_as_scalar_be,
    reads_as_scalar_le, scalar_from_be_bytes, scalar_from_le_bytes, curve_point, Curve,
};
use crate::errors::{Field, Representation, ValueError};
use crate::name_map::{
    entries_map, lemma_entry_in_map, lemma_same_entries, names_distinct, with_entry, NameMap,
};
use crate::numbers::{
    big_signed_value, big_unsigned_value, decimal, is_big_signed, is_big_unsigned,
    lemma_signed_text_reads_back, lemma_unsigned_text_reads_back, parse_big_signed,
    parse_big_unsigned, signed_decimal,
};
use vstd::prelude::*;

verus! {

/// Bytes in a message digest for ECDSA.
pub const DIGEST_WIDTH: usize = 32;

/// Bytes in a compressed public key of ECDSA.
pub const ECDSA_PUBLIC_KEY_WIDTH: usize = 33;

/// Bytes in a public key of EdDSA.
pub const EDDSA_PUBLIC_KEY_WIDTH: usize = 32;

/// Bytes in the identifier of a stored value.
pub const STORE_ID_WIDTH: usize = 16;

/// The two components of an ECDSA signature, each in binary form with the
/// most significant byte first.
#[derive(Clone, Debug, PartialEq, Eq)]
pub struct EcdsaSignature {
    r: Vec<u8>,
    s: Vec<u8>,
}

/// What an [`EcdsaSignature`] holds.
pub struct EcdsaSignatureView {
    pub r: Seq<u8>,
    pub s: Seq<u8>,
}

impl View for EcdsaSignature {
    type V = EcdsaSignatureView;

    closed spec fn view(&self) -> EcdsaSignatureView {
        EcdsaSignatureView { r: self.r@, s: self.s@ }
    }
}

impl EcdsaSignature {
    /// A signature of the two components given.
    pub fn new(r: Vec<u8>, s: Vec<u8>) -> (signature: Self)
        ensures
            signature@ == (EcdsaSignatureView { r: r@, s: s@ }),
    {
        EcdsaSignature { r, s }
    }

    /// The component `r`.
    pub fn r(&self) -> (bytes: Vec<u8>)
        ensures
            bytes@ == self@.r,
    {
        copy_bytes(&self.r)
    }

    /// The component `s`.
    pub fn s(&self) -> (bytes: Vec<u8>)
        ensures
            bytes@ == self@.s,
    {
        copy_bytes(&self.s)
    }

    /// A signature with the same components.
    pub fn duplicate(&self) -> (copy: Self)
        ensures
            copy@ == self@,
    {
        EcdsaSignature { r: copy_bytes(&self.r), s: copy_bytes(&self.s) }
    }

    /// Whether two signatures have the same components.
    pub fn same_as(&self, other: &Self) -> (same: bool)
        ensures
            same == (self@ == other@),
    {
        bytes_equal(&self.r, &other.r) && bytes_equal(&self.s, &other.s)
    }
}

/// The two components of an EdDSA signature: the point `r` in its
/// encoding, and the scalar `z` with the least significant byte first.
#[derive(Clone, Debug, PartialEq, Eq)]
pub struct EddsaSignature {
    r: Vec<u8>,
    z: Vec<u8>,
}

/// What an [`EddsaSignature`] holds.
pub struct EddsaSignatureView {
    pub r: Seq<u8>,
    pub z: Seq<u8>,
}

impl View for EddsaSignature {
    type V = EddsaSignatureView;

    closed spec fn view(&self) -> EddsaSignatureView {
        EddsaSignatureView { r: self.r@, z: self.z@ }
    }
}

impl EddsaSignature {
    /// A signature of the two components given.
    pub fn new(r: Vec<u8>, z: Vec<u8>) -> (signature: Self)
        ensures
            signature@ == (EddsaSignatureView { r: r@, z: z@ }),
    {
        EddsaSignature { r, z }
    }

    /// The component `r`.
    pub fn r(&self) -> (bytes: Vec<u8>)
        ensures
            bytes@ == self@.r,
    {
        copy_bytes(&self.r)
    }

    /// The component `z`.
    pub fn z(&self) -> (bytes: Vec<u8>)
        ensures
            bytes@ == self@.z,
    {
        copy_bytes(&self.z)
    }

    /// The signature in one piece: `r`, then `z`.
    pub fn signature(&self) -> (bytes: Vec<u8>)
        ensures
            bytes@ == self@.r + self@.z,
    {
        let mut bytes = copy_bytes(&self.r);
        let mut tail = copy_bytes(&self.z);
        bytes.append(&mut tail);
        bytes
    }

    /// A signature with the same components.
    pub fn duplicate(&self) -> (copy: Self)
        ensures
            copy@ == self@,
    {
        EddsaSignature { r: copy_bytes(&self.r), z: copy_bytes(&self.z) }
    }

    /// Whether two signatures have the same components.
    pub fn same_as(&self, other: &Self) -> (same: bool)
        ensures
            same == (self@ == other@),
    {
        bytes_equal(&self.r, &other.r) && bytes_equal(&self.z, &other.z)
    }
}

/// What a cleartext value holds in memory. Numbers are held as their
/// shortest decimal text, scalars and points as their full-width
/// encodings.
#[derive(Debug, PartialEq, Eq)]
enum Held {
    /// A public integer.
    Integer(String),
    /// A public unsigned integer.
    UnsignedInteger(String),
    /// A public boolean.
    Boolean(bool),
    /// A secret integer.
    SecretInteger(String),
    /// A secret unsigned integer.
    SecretUnsignedInteger(String),
    /// A secret boolean.
    SecretBoolean(bool),
    /// A secret byte string of any length.
    SecretBlob(Vec<u8>),
    /// A private key of ECDSA: a scalar that is not zero, most significant
    /// byte first.
    EcdsaPrivateKey(Vec<u8>),
    /// A message digest to sign with ECDSA.
    EcdsaDigestMessage(Vec<u8>),
    /// A signature of ECDSA.
    EcdsaSignature(EcdsaSignature),
    /// A compressed public key of ECDSA.
    EcdsaPublicKey(Vec<u8>),
    /// A private key of EdDSA: a scalar that is not zero, least
    /// significant byte first.
    EddsaPrivateKey(Vec<u8>),
    /// A message to sign with EdDSA.
    EddsaMessage(Vec<u8>),
    /// A signature of EdDSA.
    EddsaSignature(EddsaSignature),
    /// A public key of EdDSA.
    EddsaPublicKey(Vec<u8>),
    /// The identifier of a stored value.
    StoreId(Vec<u8>),
}

/// A cleartext value of one of sixteen variants. It is made by the
/// constructor of its variant and by nothing else, so that it is always
/// well formed: numbers in their shortest text, byte fields of their fixed
/// width, scalars in range and not zero, points on their curve.
#[derive(Debug, PartialEq, Eq)]
pub struct NadaValue {
    held: Held,
}

/// The variants of a cleartext value.
#[derive(Clone, Copy, Debug, PartialEq, Eq, Structural)]
pub enum ClearType {
    Integer,
    UnsignedInteger,
    Boolean,
    SecretInteger,
    SecretUnsignedInteger,
    SecretBoolean,
    SecretBlob,
    EcdsaPrivateKey,
    EcdsaDigestMessage,
    EcdsaSignature,
    EcdsaPublicKey,
    EddsaPrivateKey,
    EddsaMessage,
    EddsaSignature,
    EddsaPublicKey,
    StoreId,
}

/// What a [`NadaValue`] holds.
pub enum ClearValue {
    Integer(Seq<char>),
    UnsignedInteger(Seq<char>),
    Boolean(bool),
    SecretInteger(Seq<char>),
    SecretUnsignedInteger(Seq<char>),
    SecretBoolean(bool),
    SecretBlob(Seq<u8>),
    EcdsaPrivateKey(Seq<u8>),
    EcdsaDigestMessage(Seq<u8>),
    EcdsaSignature(EcdsaSignatureView),
    EcdsaPublicKey(Seq<u8>),
    EddsaPrivateKey(Seq<u8>),
    EddsaMessage(Seq<u8>),
    EddsaSignature(EddsaSignatureView),
    EddsaPublicKey(Seq<u8>),
    StoreId(Seq<u8>),
}

impl Held {
    spec fn model(&self) -> ClearValue {
        match self {
            Held::Integer(text) => ClearValue::Integer(text@),
            Held::UnsignedInteger(text) => ClearValue::UnsignedInteger(text@),
            Held::Boolean(bit) => ClearValue::Boolean(*bit),
            Held::SecretInteger(text) => ClearValue::SecretInteger(text@),
            Held::SecretUnsignedInteger(text) => ClearValue::SecretUnsignedInteger(text@),
            Held::SecretBoolean(bit) => ClearValue::SecretBoolean(*bit),
            Held::SecretBlob(bytes) => ClearValue::SecretBlob(bytes@),
            Held::EcdsaPrivateKey(bytes) => ClearValue::EcdsaPrivateKey(bytes@),
            Held::EcdsaDigestMessage(bytes) => ClearValue::EcdsaDigestMessage(bytes@),
            Held::EcdsaSignature(signature) => ClearValue::EcdsaSignature(signature@),
            Held::EcdsaPublicKey(bytes) => ClearValue::EcdsaPublicKey(bytes@),
            Held::EddsaPrivateKey(bytes) => ClearValue::EddsaPrivateKey(bytes@),
            Held::EddsaMessage(bytes) => ClearValue::EddsaMessage(bytes@),
            Held::EddsaSignature(signature) => ClearValue::EddsaSignature(signature@),
            Held::EddsaPublicKey(bytes) => ClearValue::EddsaPublicKey(bytes@),
            Held::StoreId(bytes) => ClearValue::StoreId(bytes@),
        }
    }
}

impl View for NadaValue {
    type V = ClearValue;

    closed spec fn view(&self) -> ClearValue {
        self.held.model()
    }
}

/// Whether `text` is the shortest decimal text of an integer.
pub open spec fn is_integer_text(text: Seq<char>) -> bool {
    exists|v: int| text == signed_decimal(v)
}

/// Whether `text` is the shortest decimal text of a natural number.
pub open spec fn is_unsigned_text(text: Seq<char>) -> bool {
    exists|n: nat| text == decimal(n)
}

/// Whether `bytes` are the full-width encoding, most significant byte
/// first, of a scalar of secp256k1 that is not zero.
pub open spec fn is_ecdsa_secret(bytes: Seq<u8>) -> bool {
    is_scalar_be(Curve::Secp256k1, bytes) && bytes != zeros(32)
}

/// Whether `bytes` are the full-width encoding, least significant byte
/// first, of a scalar of Ed25519 that is not zero.
pub open spec fn is_eddsa_secret(bytes: Seq<u8>) -> bool {
    is_scalar_le(Curve::Ed25519, bytes) && bytes != zeros(32)
}

/// Whether up to 32 bytes, most significant first, read as a scalar of
/// secp256k1 that is not zero.
pub open spec fn reads_as_ecdsa_secret(bytes: Seq<u8>) -> bool {
    reads_as_scalar_be(Curve::Secp256k1, bytes) && pad_front(bytes, 32) != zeros(32)
}

/// Whether up to 32 bytes, least significant first, read as a scalar of
/// Ed25519 that is not zero.
pub open spec fn reads_as_eddsa_secret(bytes: Seq<u8>) -> bool {
    reads_as_scalar_le(Curve::Ed25519, bytes) && pad_back(bytes, 32) != zeros(32)
}

impl ClearValue {
    /// Whether the value is one that the constructors make: numbers in
    /// their shortest text, byte fields of their fixed width, scalars in
    /// range and not zero, points on their curve.
    pub open spec fn wf(self) -> bool {
        match self {
            ClearValue::Integer(text) | ClearValue::SecretInteger(text) => is_integer_text(text),
            ClearValue::UnsignedInteger(text) | ClearValue::SecretUnsignedInteger(text) =>
                is_unsigned_text(text),
            ClearValue::Boolean(_) | ClearValue::SecretBoolean(_) => true,
            ClearValue::SecretBlob(_) | ClearValue::EddsaMessage(_) => true,
            ClearValue::EcdsaPrivateKey(bytes) => is_ecdsa_secret(bytes),
            ClearValue::EcdsaDigestMessage(bytes) => bytes.len() == DIGEST_WIDTH,
            ClearValue::EcdsaSignature(signature) => is_ecdsa_secret(signature.r)
                && is_ecdsa_secret(signature.s),
            ClearValue::EcdsaPublicKey(bytes) => bytes.len() == ECDSA_PUBLIC_KEY_WIDTH,
            ClearValue::EddsaPrivateKey(bytes) => is_eddsa_secret(bytes),
            ClearValue::EddsaSignature(signature) => is_point(Curve::Ed25519, signature.r)
                && is_scalar_le(Curve::Ed25519, signature.z),
            ClearValue::EddsaPublicKey(bytes) => bytes.len() == EDDSA_PUBLIC_KEY_WIDTH,
            ClearValue::StoreId(bytes) => bytes.len() == STORE_ID_WIDTH,
        }
    }

    /// The variant of the value.
    pub open spec fn variant(self) -> ClearType {
        match self {
            ClearValue::Integer(_) => ClearType::Integer,
            ClearValue::UnsignedInteger(_) => ClearType::UnsignedInteger,
            ClearValue::Boolean(_) => ClearType::Boolean,
            ClearValue::SecretInteger(_) => ClearType::SecretInteger,
            ClearValue::SecretUnsignedInteger(_) => ClearType::SecretUnsignedInteger,
            ClearValue::SecretBoolean(_) => ClearType::SecretBoolean,
            ClearValue::SecretBlob(_) => ClearType::SecretBlob,
            ClearValue::EcdsaPrivateKey(_) => ClearType::EcdsaPrivateKey,
            ClearValue::EcdsaDigestMessage(_) => ClearType::EcdsaDigestMessage,
            ClearValue::EcdsaSignature(_) => ClearType::EcdsaSignature,
            ClearValue::EcdsaPublicKey(_) => ClearType::EcdsaPublicKey,
            ClearValue::EddsaPrivateKey(_) => ClearType::EddsaPrivateKey,
            ClearValue::EddsaMessage(_) => ClearType::EddsaMessage,
            ClearValue::EddsaSignature(_) => ClearType::EddsaSignature,
            ClearValue::EddsaPublicKey(_) => ClearType::EddsaPublicKey,
            ClearValue::StoreId(_) => ClearType::StoreId,
        }
    }

    /// The tag that names the variant: the name of the variant itself, the
    /// same wherever values are exchanged.
    pub open spec fn type_tag(self) -> Seq<char> {
        match self {
            ClearValue::Integer(_) => "Integer"@,
            ClearValue::UnsignedInteger(_) => "UnsignedInteger"@,
            ClearValue::Boolean(_) => "Boolean"@,
            ClearValue::SecretInteger(_) => "SecretInteger"@,
            ClearValue::SecretUnsignedInteger(_) => "SecretUnsignedInteger"@,
            ClearValue::SecretBoolean(_) => "SecretBoolean"@,
            ClearValue::SecretBlob(_) => "SecretBlob"@,
            ClearValue::EcdsaPrivateKey(_) => "EcdsaPrivateKey"@,
            ClearValue::EcdsaDigestMessage(_) => "EcdsaDigestMessage"@,
            ClearValue::EcdsaSignature(_) => "EcdsaSignature"@,
            ClearValue::EcdsaPublicKey(_) => "EcdsaPublicKey"@,
            ClearValue::EddsaPrivateKey(_) => "EddsaPrivateKey"@,
            ClearValue::EddsaMessage(_) => "EddsaMessage"@,
            ClearValue::EddsaSignature(_) => "EddsaSignature"@,
            ClearValue::EddsaPublicKey(_) => "EddsaPublicKey"@,
            ClearValue::StoreId(_) => "StoreId"@,
        }
    }

    /// The byte array of the variants that have one.
    pub open spec fn byte_array(self) -> Option<Seq<u8>> {
        match self {
            ClearValue::SecretBlob(bytes)
            | ClearValue::EcdsaPrivateKey(bytes)
            | ClearValue::EcdsaDigestMessage(bytes)
            | ClearValue::EcdsaPublicKey(bytes)
            | ClearValue::EddsaPrivateKey(bytes)
            | ClearValue::EddsaPublicKey(bytes)
            | ClearValue::EddsaMessage(bytes)
            | ClearValue::StoreId(bytes) => Some(bytes),
            _ => None,
        }
    }

    /// The text of the numeric and boolean variants.
    pub open spec fn integer_text(self) -> Option<Seq<char>> {
        match self {
            ClearValue::Integer(text)
            | ClearValue::SecretInteger(text)
            | ClearValue::UnsignedInteger(text)
            | ClearValue::SecretUnsignedInteger(text) => Some(text),
            ClearValue::Boolean(bit) | ClearValue::SecretBoolean(bit) => Some(
                if bit {
                    "true"@
                } else {
                    "false"@
                },
            ),
            _ => None,
        }
    }
}

/// Reads a signed integer of any size into its shortest text.
fn integer_text_of(value: &str) -> (text: Result<String, ValueError>)
    ensures
        is_big_signed(value@) ==> text.is_ok() && text->Ok_0@ == signed_decimal(
            big_signed_value(value@),
        ),
        !is_big_signed(value@) ==> text == Err::<String, ValueError>(
            ValueError::ValueParse { field: Field::Value },
        ),
{
    match parse_big_signed(value) {
        Some(text) => Ok(text),
        None => Err(ValueError::ValueParse { field: Field::Value }),
    }
}

/// Reads an unsigned integer of any size into its shortest text.
fn unsigned_text_of(value: &str) -> (text: Result<String, ValueError>)
    ensures
        is_big_unsigned(value@) ==> text.is_ok() && text->Ok_0@ == decimal(
            big_unsigned_value(value@),
        ),
        !is_big_unsigned(value@) ==> text == Err::<String, ValueError>(
            ValueError::ValueParse { field: Field::Value },
        ),
{
    match parse_big_unsigned(value) {
        Some(text) => Ok(text),
        None => Err(ValueError::ValueParse { field: Field::Value }),
    }
}

/// Reads a scalar of secp256k1 that is not zero from up to 32 bytes, most
/// significant first; `field` names it in the error.
pub fn ecdsa_secret_from_bytes(bytes: &Vec<u8>, field: Field) -> (scalar: Result<
    Vec<u8>,
    ValueError,
>)
    ensures
        reads_as_ecdsa_secret(bytes@) ==> scalar.is_ok() && scalar->Ok_0@ == pad_front(bytes@, 32)
            && is_ecdsa_secret(scalar->Ok_0@),
        !reads_as_ecdsa_secret(bytes@) ==> scalar == Err::<Vec<u8>, ValueError>(
            ValueError::ScalarOrPointInvalid { field },
        ),
{
    match scalar_from_be_bytes(bytes) {
        Some(full) => {
            if is_all_zero(&full) {
                Err(ValueError::ScalarOrPointInvalid { field })
            } else {
                Ok(full)
            }
        },
        None => Err(ValueError::ScalarOrPointInvalid { field }),
    }
}

/// Reads a scalar of Ed25519 that is not zero from up to 32 bytes, least
/// significant first; `field` names it in the error.
pub fn eddsa_secret_from_bytes(bytes: &Vec<u8>, field: Field) -> (scalar: Result<
    Vec<u8>,
    ValueError,
>)
    ensures
        reads_as_eddsa_secret(bytes@) ==> scalar.is_ok() && scalar->Ok_0@ == pad_back(bytes@, 32)
            && is_eddsa_secret(scalar->Ok_0@),
        !reads_as_eddsa_secret(bytes@) ==> scalar == Err::<Vec<u8>, ValueError>(
            ValueError::ScalarOrPointInvalid { field },
        ),
{
    match scalar_from_le_bytes(Curve::Ed25519, bytes) {
        Some(full) => {
            if is_all_zero(&full) {
                Err(ValueError::ScalarOrPointInvalid { field })
            } else {
                Ok(full)
            }
        },
        None => Err(ValueError::ScalarOrPointInvalid { field }),
    }
}

impl NadaValue {
    #[verifier::type_invariant]
    spec fn well_formed(&self) -> bool {
        self@.wf()
    }

    /// The variant of the value.
    pub fn variant(&self) -> (variant: ClearType)
        ensures
            variant == self@.variant(),
            self@.wf(),
    {
        proof {
            use_type_invariant(self);
        }
        match &self.held {
            Held::Integer(_) => ClearType::Integer,
            Held::UnsignedInteger(_) => ClearType::UnsignedInteger,
            Held::Boolean(_) => ClearType::Boolean,
            Held::SecretInteger(_) => ClearType::SecretInteger,
            Held::SecretUnsignedInteger(_) => ClearType::SecretUnsignedInteger,
            Held::SecretBoolean(_) => ClearType::SecretBoolean,
            Held::SecretBlob(_) => ClearType::SecretBlob,
            Held::EcdsaPrivateKey(_) => ClearType::EcdsaPrivateKey,
            Held::EcdsaDigestMessage(_) => ClearType::EcdsaDigestMessage,
            Held::EcdsaSignature(_) => ClearType::EcdsaSignature,
            Held::EcdsaPublicKey(_) => ClearType::EcdsaPublicKey,
            Held::EddsaPrivateKey(_) => ClearType::EddsaPrivateKey,
            Held::EddsaMessage(_) => ClearType::EddsaMessage,
            Held::EddsaSignature(_) => ClearType::EddsaSignature,
            Held::EddsaPublicKey(_) => ClearType::EddsaPublicKey,
            Held::StoreId(_) => ClearType::StoreId,
        }
    }

    /// A secret integer from its decimal text.
    pub fn new_secret_integer(value: &str) -> (made: Result<NadaValue, ValueError>)
        ensures
            is_big_signed(value@) ==> made.is_ok() && made->Ok_0@ == ClearValue::SecretInteger(
                signed_decimal(big_signed_value(value@)),
            ) && made->Ok_0@.wf(),
            !is_big_signed(value@) ==> made == Err::<NadaValue, ValueError>(
                ValueError::ValueParse { field: Field::Value },
            ),
    {
        match integer_text_of(value) {
            Ok(text) => Ok(NadaValue { held: Held::SecretInteger(text) }),
            Err(error) => Err(error),
        }
    }

    /// A secret unsigned integer from its decimal text.
    pub fn new_secret_unsigned_integer(value: &str) -> (made: Result<NadaValue, ValueError>)
        ensures
            is_big_unsigned(value@) ==> made.is_ok() && made->Ok_0@
                == ClearValue::SecretUnsignedInteger(decimal(big_unsigned_value(value@)))
                && made->Ok_0@.wf(),
            !is_big_unsigned(value@) ==> made == Err::<NadaValue, ValueError>(
                ValueError::ValueParse { field: Field::Value },
            ),
    {
        match unsigned_text_of(value) {
            Ok(text) => Ok(NadaValue { held: Held::SecretUnsignedInteger(text) }),
            Err(error) => Err(error),
        }
    }

    /// A secret boolean.
    pub fn new_secret_boolean(value: bool) -> (made: Result<NadaValue, ValueError>)
        ensures
            made.is_ok(),
            made->Ok_0@ == ClearValue::SecretBoolean(value),
            made->Ok_0@.wf(),
    {
        Ok(NadaValue { held: Held::SecretBoolean(value) })
    }

    /// A secret blob of the bytes given.
    pub fn new_secret_blob(value: Vec<u8>) -> (made: NadaValue)
        ensures
            made@ == ClearValue::SecretBlob(value@),
            made@.wf(),
    {
        NadaValue { held: Held::SecretBlob(value) }
    }

    /// A public integer from its decimal text.
    pub fn new_public_integer(value: &str) -> (made: Result<NadaValue, ValueError>)
        ensures
            is_big_signed(value@) ==> made.is_ok() && made->Ok_0@ == ClearValue::Integer(
                signed_decimal(big_signed_value(value@)),
            ) && made->Ok_0@.wf(),
            !is_big_signed(value@) ==> made == Err::<NadaValue, ValueError>(
                ValueError::ValueParse { field: Field::Value },
            ),
    {
        match integer_text_of(value) {
            Ok(text) => Ok(NadaValue { held: Held::Integer(text) }),
            Err(error) => Err(error),
        }
    }

    /// A public unsigned integer from its decimal text.
    pub fn new_public_unsigned_integer(value: &str) -> (made: Result<NadaValue, ValueError>)
        ensures
            is_big_unsigned(value@) ==> made.is_ok() && made->Ok_0@ == ClearValue::UnsignedInteger(
                decimal(big_unsigned_value(value@)),
            ) && made->Ok_0@.wf(),
            !is_big_unsigned(value@) ==> made == Err::<NadaValue, ValueError>(
                ValueError::ValueParse { field: Field::Value },
            ),
    {
        match unsigned_text_of(value) {
            Ok(text) => Ok(NadaValue { held: Held::UnsignedInteger(text) }),
            Err(error) => Err(error),
        }
    }

    /// A public boolean.
    pub fn new_public_boolean(value: bool) -> (made: Result<NadaValue, ValueError>)
        ensures
            made.is_ok(),
            made->Ok_0@ == ClearValue::Boolean(value),
            made->Ok_0@.wf(),
    {
        Ok(NadaValue { held: Held::Boolean(value) })
    }

    /// A private key of ECDSA from up to 32 bytes, most significant first.
    pub fn new_ecdsa_private_key(value: Vec<u8>) -> (made: Result<NadaValue, ValueError>)
        ensures
            reads_as_ecdsa_secret(value@) ==> made.is_ok() && made->Ok_0@
                == ClearValue::EcdsaPrivateKey(pad_front(value@, 32)) && made->Ok_0@.wf(),
            !reads_as_ecdsa_secret(value@) ==> made == Err::<NadaValue, ValueError>(
                ValueError::ScalarOrPointInvalid { field: Field::X },
            ),
    {
        match ecdsa_secret_from_bytes(&value, Field::X) {
            Ok(scalar) => Ok(NadaValue { held: Held::EcdsaPrivateKey(scalar) }),
            Err(error) => Err(error),
        }
    }

    /// A message digest for ECDSA, of exactly 32 bytes.
    pub fn new_ecdsa_digest_message(value: Vec<u8>) -> (made: Result<NadaValue, ValueError>)
        ensures
            value@.len() == DIGEST_WIDTH ==> made.is_ok() && made->Ok_0@
                == ClearValue::EcdsaDigestMessage(value@) && made->Ok_0@.wf(),
            value@.len() != DIGEST_WIDTH ==> made == Err::<NadaValue, ValueError>(
                ValueError::LengthMismatch {
                    field: Field::Digest,
                    expected: DIGEST_WIDTH,
                    actual: value@.len() as usize,
                },
            ),
    {
        match fixed_width(value, DIGEST_WIDTH, Field::Digest) {
            Ok(bytes) => Ok(NadaValue { held: Held::EcdsaDigestMessage(bytes) }),
            Err(error) => Err(error),
        }
    }

    /// A signature of ECDSA from its two components, each a scalar that is
    /// not zero, in up to 32 bytes with the most significant first. The
    /// error names the first component that is refused.
    pub fn new_ecdsa_signature(r: Vec<u8>, s: Vec<u8>) -> (made: Result<NadaValue, ValueError>)
        ensures
            reads_as_ecdsa_secret(r@) && reads_as_ecdsa_secret(s@) ==> made.is_ok() && made->Ok_0@
                == ClearValue::EcdsaSignature(
                EcdsaSignatureView { r: pad_front(r@, 32), s: pad_front(s@, 32) },
            ) && made->Ok_0@.wf(),
            !reads_as_ecdsa_secret(r@) ==> made == Err::<NadaValue, ValueError>(
                ValueError::ScalarOrPointInvalid { field: Field::R },
            ),
            reads_as_ecdsa_secret(r@) && !reads_as_ecdsa_secret(s@) ==> made == Err::<
                NadaValue,
                ValueError,
            >(ValueError::ScalarOrPointInvalid { field: Field::S }),
    {
        let r = match ecdsa_secret_from_bytes(&r, Field::R) {
            Ok(scalar) => scalar,
            Err(error) => {
                return Err(error);
            },
        };
        let s = match ecdsa_secret_from_bytes(&s, Field::S) {
            Ok(scalar) => scalar,
            Err(error) => {
                return Err(error);
            },
        };
        Ok(NadaValue { held: Held::EcdsaSignature(EcdsaSignature::new(r, s)) })
    }

    /// A compressed public key of ECDSA, of exactly 33 bytes.
    pub fn new_ecdsa_public_key(value: Vec<u8>) -> (made: Result<NadaValue, ValueError>)
        ensures
            value@.len() == ECDSA_PUBLIC_KEY_WIDTH ==> made.is_ok() && made->Ok_0@
                == ClearValue::EcdsaPublicKey(value@) && made->Ok_0@.wf(),
            value@.len() != ECDSA_PUBLIC_KEY_WIDTH ==> made == Err::<NadaValue, ValueError>(
                ValueError::LengthMismatch {
                    field: Field::PublicKey,
                    expected: ECDSA_PUBLIC_KEY_WIDTH,
                    actual: value@.len() as usize,
                },
            ),
    {
        match fixed_width(value, ECDSA_PUBLIC_KEY_WIDTH, Field::PublicKey) {
            Ok(bytes) => Ok(NadaValue { held: Held::EcdsaPublicKey(bytes) }),
            Err(error) => Err(error),
        }
    }

    /// A private key of EdDSA from up to 32 bytes, least significant
    /// first.
    pub fn new_eddsa_private_key(value: Vec<u8>) -> (made: Result<NadaValue, ValueError>)
        ensures
            reads_as_eddsa_secret(value@) ==> made.is_ok() && made->Ok_0@
                == ClearValue::EddsaPrivateKey(pad_back(value@, 32)) && made->Ok_0@.wf(),
            !reads_as_eddsa_secret(value@) ==> made == Err::<NadaValue, ValueError>(
                ValueError::ScalarOrPointInvalid { field: Field::X },
            ),
    {
        match eddsa_secret_from_bytes(&value, Field::X) {
            Ok(scalar) => Ok(NadaValue { held: Held::EddsaPrivateKey(scalar) }),
            Err(error) => Err(error),
        }
    }

    /// A message to sign with EdDSA, of any length.
    pub fn new_eddsa_message(value: Vec<u8>) -> (made: Result<NadaValue, ValueError>)
        ensures
            made.is_ok(),
            made->Ok_0@ == ClearValue::EddsaMessage(value@),
            made->Ok_0@.wf(),
    {
        Ok(NadaValue { held: Held::EddsaMessage(value) })
    }

    /// A signature of EdDSA from its two components: `r`, the encoding of
    /// a point other than the identity, and `z`, a scalar in up to 32
    /// bytes with the least significant first. The error names the first
    /// component that is refused.
    pub fn new_eddsa_signature(r: Vec<u8>, z: Vec<u8>) -> (made: Result<NadaValue, ValueError>)
        ensures
            curve_point(Curve::Ed25519, r@).is_some() && reads_as_scalar_le(Curve::Ed25519, z@)
                ==> made.is_ok() && made->Ok_0@ == ClearValue::EddsaSignature(
                EddsaSignatureView {
                    r: curve_point(Curve::Ed25519, r@).unwrap(),
                    z: pad_back(z@, 32),
                },
            ) && made->Ok_0@.wf(),
            curve_point(Curve::Ed25519, r@).is_none() ==> made == Err::<NadaValue, ValueError>(
                ValueError::ScalarOrPointInvalid { field: Field::R },
            ),
            curve_point(Curve::Ed25519, r@).is_some() && !reads_as_scalar_le(Curve::Ed25519, z@)
                ==> made == Err::<NadaValue, ValueError>(
                ValueError::ScalarOrPointInvalid { field: Field::Z },
            ),
    {
        let r = match point_from_bytes(Curve::Ed25519, &r) {
            Some(point) => point,
            None => {
                return Err(ValueError::ScalarOrPointInvalid { field: Field::R });
            },
        };
        let z = match scalar_from_le_bytes(Curve::Ed25519, &z) {
            Some(scalar) => scalar,
            None => {
                return Err(ValueError::ScalarOrPointInvalid { field: Field::Z });
            },
        };
        Ok(NadaValue { held: Held::EddsaSignature(EddsaSignature::new(r, z)) })
    }

    /// A public key of EdDSA, of exactly 32 bytes.
    pub fn new_eddsa_public_key(value: Vec<u8>) -> (made: Result<NadaValue, ValueError>)
        ensures
            value@.len() == EDDSA_PUBLIC_KEY_WIDTH ==> made.is_ok() && made->Ok_0@
                == ClearValue::EddsaPublicKey(value@) && made->Ok_0@.wf(),
            value@.len() != EDDSA_PUBLIC_KEY_WIDTH ==> made == Err::<NadaValue, ValueError>(
                ValueError::LengthMismatch {
                    field: Field::PublicKey,
                    expected: EDDSA_PUBLIC_KEY_WIDTH,
                    actual: value@.len() as usize,
                },
            ),
    {
        match fixed_width(value, EDDSA_PUBLIC_KEY_WIDTH, Field::PublicKey) {
            Ok(bytes) => Ok(NadaValue { held: Held::EddsaPublicKey(bytes) }),
            Err(error) => Err(error),
        }
    }

    /// The identifier of a stored value, of exactly 16 bytes.
    pub fn new_store_id(value: Vec<u8>) -> (made: Result<NadaValue, ValueError>)
        ensures
            value@.len() == STORE_ID_WIDTH ==> made.is_ok() && made->Ok_0@ == ClearValue::StoreId(
                value@,
            ) && made->Ok_0@.wf(),
            value@.len() != STORE_ID_WIDTH ==> made == Err::<NadaValue, ValueError>(
                ValueError::LengthMismatch {
                    field: Field::StoreId,
                    expected: STORE_ID_WIDTH,
                    actual: value@.len() as usize,
                },
            ),
    {
        match fixed_width(value, STORE_ID_WIDTH, Field::StoreId) {
            Ok(bytes) => Ok(NadaValue { held: Held::StoreId(bytes) }),
            Err(error) => Err(error),
        }
    }

    /// The byte array that the value holds: a blob's or a message's
    /// bytes, a key, a digest or an identifier. A private key of ECDSA
    /// comes most significant byte first, one of EdDSA least significant
    /// byte first. Other variants have no byte array.
    pub fn to_byte_array(&self) -> (bytes: Result<Vec<u8>, ValueError>)
        ensures
            self@.byte_array() matches Some(held) ==> bytes.is_ok() && bytes->Ok_0@ == held,
            self@.byte_array().is_none() ==> bytes == Err::<Vec<u8>, ValueError>(
                ValueError::UnsupportedConversion { wanted: Representation::ByteArray },
            ),
    {
        match &self.held {
            Held::SecretBlob(bytes) => Ok(copy_bytes(bytes)),
            Held::EcdsaPrivateKey(bytes) => Ok(copy_bytes(bytes)),
            Held::EcdsaDigestMessage(bytes) => Ok(copy_bytes(bytes)),
            Held::EcdsaPublicKey(bytes) => Ok(copy_bytes(bytes)),
            Held::EddsaPrivateKey(bytes) => Ok(copy_bytes(bytes)),
            Held::EddsaPublicKey(bytes) => Ok(copy_bytes(bytes)),
            Held::EddsaMessage(bytes) => Ok(copy_bytes(bytes)),
            Held::StoreId(bytes) => Ok(copy_bytes(bytes)),
            _ => Err(ValueError::UnsupportedConversion { wanted: Representation::ByteArray }),
        }
    }

    /// The two components of a signature of ECDSA; no other variant has
    /// them.
    pub fn to_ecdsa_signature(&self) -> (signature: Result<EcdsaSignature, ValueError>)
        ensures
            self@ matches ClearValue::EcdsaSignature(held) ==> signature.is_ok()
                && signature->Ok_0@ == held,
            !(self@ is EcdsaSignature) ==> signature == Err::<EcdsaSignature, ValueError>(
                ValueError::UnsupportedConversion { wanted: Representation::EcdsaSignature },
            ),
    {
        match &self.held {
            Held::EcdsaSignature(signature) => Ok(signature.duplicate()),
            _ => Err(ValueError::UnsupportedConversion { wanted: Representation::EcdsaSignature }),
        }
    }

    /// The two components of a signature of EdDSA; no other variant has
    /// them.
    pub fn to_eddsa_signature(&self) -> (signature: Result<EddsaSignature, ValueError>)
        ensures
            self@ matches ClearValue::EddsaSignature(held) ==> signature.is_ok()
                && signature->Ok_0@ == held,
            !(self@ is EddsaSignature) ==> signature == Err::<EddsaSignature, ValueError>(
                ValueError::UnsupportedConversion { wanted: Representation::EddsaSignature },
            ),
    {
        match &self.held {
            Held::EddsaSignature(signature) => Ok(signature.duplicate()),
            _ => Err(ValueError::UnsupportedConversion { wanted: Representation::EddsaSignature }),
        }
    }

    /// The text of a number, or `true` or `false` for a boolean; other
    /// variants have none.
    pub fn to_integer(&self) -> (text: Result<String, ValueError>)
        ensures
            self@.integer_text() matches Some(held) ==> text.is_ok() && text->Ok_0@ == held,
            self@.integer_text().is_none() ==> text == Err::<String, ValueError>(
                ValueError::UnsupportedConversion { wanted: Representation::Integer },
            ),
    {
        match &self.held {
            Held::Integer(text) => Ok(text.clone()),
            Held::SecretInteger(text) => Ok(text.clone()),
            Held::UnsignedInteger(text) => Ok(text.clone()),
            Held::SecretUnsignedInteger(text) => Ok(text.clone()),
            Held::Boolean(bit) => Ok(boolean_text(*bit)),
            Held::SecretBoolean(bit) => Ok(boolean_text(*bit)),
            _ => Err(ValueError::UnsupportedConversion { wanted: Representation::Integer }),
        }
    }

    /// The tag that names the variant: the name of the variant itself, the
    /// same wherever values are exchanged.
    pub fn type_tag(&self) -> (name: Result<String, ValueError>)
        ensures
            name.is_ok(),
            name->Ok_0@ == self@.type_tag(),
    {
        let name = match &self.held {
            Held::Integer(_) => "Integer",
            Held::UnsignedInteger(_) => "UnsignedInteger",
            Held::Boolean(_) => "Boolean",
            Held::SecretInteger(_) => "SecretInteger",
            Held::SecretUnsignedInteger(_) => "SecretUnsignedInteger",
            Held::SecretBoolean(_) => "SecretBoolean",
            Held::SecretBlob(_) => "SecretBlob",
            Held::EcdsaPrivateKey(_) => "EcdsaPrivateKey",
            Held::EcdsaDigestMessage(_) => "EcdsaDigestMessage",
            Held::EcdsaSignature(_) => "EcdsaSignature",
            Held::EcdsaPublicKey(_) => "EcdsaPublicKey",
            Held::EddsaPrivateKey(_) => "EddsaPrivateKey",
            Held::EddsaMessage(_) => "EddsaMessage",
            Held::EddsaSignature(_) => "EddsaSignature",
            Held::EddsaPublicKey(_) => "EddsaPublicKey",
            Held::StoreId(_) => "StoreId",
        };
        Ok(name.to_owned())
    }

    /// Whether two values are of the same variant and hold the same.
    pub fn same_as(&self, other: &Self) -> (same: bool)
        ensures
            same == (self@ == other@),
    {
        match (&self.held, &other.held) {
            (Held::Integer(a), Held::Integer(b)) => *a == *b,
            (Held::UnsignedInteger(a), Held::UnsignedInteger(b)) => *a == *b,
            (Held::Boolean(a), Held::Boolean(b)) => *a == *b,
            (Held::SecretInteger(a), Held::SecretInteger(b)) => *a == *b,
            (Held::SecretUnsignedInteger(a), Held::SecretUnsignedInteger(b)) => *a == *b,
            (Held::SecretBoolean(a), Held::SecretBoolean(b)) => *a == *b,
            (Held::SecretBlob(a), Held::SecretBlob(b)) => bytes_equal(a, b),
            (Held::EcdsaPrivateKey(a), Held::EcdsaPrivateKey(b)) => bytes_equal(a, b),
            (Held::EcdsaDigestMessage(a), Held::EcdsaDigestMessage(b)) => bytes_equal(a, b),
            (Held::EcdsaSignature(a), Held::EcdsaSignature(b)) => a.same_as(b),
            (Held::EcdsaPublicKey(a), Held::EcdsaPublicKey(b)) => bytes_equal(a, b),
            (Held::EddsaPrivateKey(a), Held::EddsaPrivateKey(b)) => bytes_equal(a, b),
            (Held::EddsaMessage(a), Held::EddsaMessage(b)) => bytes_equal(a, b),
            (Held::EddsaSignature(a), Held::EddsaSignature(b)) => a.same_as(b),
            (Held::EddsaPublicKey(a), Held::EddsaPublicKey(b)) => bytes_equal(a, b),
            (Held::StoreId(a), Held::StoreId(b)) => bytes_equal(a, b),
            _ => false,
        }
    }

    /// A value that holds the same.
    pub fn duplicate(&self) -> (copy: Self)
        ensures
            copy@ == self@,
    {
        proof {
            use_type_invariant(self);
        }
        let held = match &self.held {
            Held::Integer(text) => Held::Integer(text.clone()),
            Held::UnsignedInteger(text) => Held::UnsignedInteger(text.clone()),
            Held::Boolean(bit) => Held::Boolean(*bit),
            Held::SecretInteger(text) => Held::SecretInteger(text.clone()),
            Held::SecretUnsignedInteger(text) => Held::SecretUnsignedInteger(
                text.clone(),
            ),
            Held::SecretBoolean(bit) => Held::SecretBoolean(*bit),
            Held::SecretBlob(bytes) => Held::SecretBlob(copy_bytes(bytes)),
            Held::EcdsaPrivateKey(bytes) => Held::EcdsaPrivateKey(copy_bytes(bytes)),
            Held::EcdsaDigestMessage(bytes) => Held::EcdsaDigestMessage(
                copy_bytes(bytes),
            ),
            Held::EcdsaSignature(signature) => Held::EcdsaSignature(
                signature.duplicate(),
            ),
            Held::EcdsaPublicKey(bytes) => Held::EcdsaPublicKey(copy_bytes(bytes)),
            Held::EddsaPrivateKey(bytes) => Held::EddsaPrivateKey(copy_bytes(bytes)),
            Held::EddsaMessage(bytes) => Held::EddsaMessage(copy_bytes(bytes)),
            Held::EddsaSignature(signature) => Held::EddsaSignature(
                signature.duplicate(),
            ),
            Held::EddsaPublicKey(bytes) => Held::EddsaPublicKey(copy_bytes(bytes)),
            Held::StoreId(bytes) => Held::StoreId(copy_bytes(bytes)),
        };
        NadaValue { held }
    }
}

/// What a value shows of itself in a record: bytes, the components of a
/// signature, or the text of a number or boolean.
#[derive(Clone, Debug, PartialEq, Eq)]
pub enum RecordValue {
    /// A byte array.
    Bytes(Vec<u8>),
    /// The components of a signature of ECDSA.
    EcdsaSignature(EcdsaSignature),
    /// The components of a signature of EdDSA.
    EddsaSignature(EddsaSignature),
    /// The text of a number or of a boolean.
    Text(String),
}

/// What a [`RecordValue`] holds.
pub enum RecordValueView {
    Bytes(Seq<u8>),
    EcdsaSignature(EcdsaSignatureView),
    EddsaSignature(EddsaSignatureView),
    Text(Seq<char>),
}

impl View for RecordValue {
    type V = RecordValueView;

    open spec fn view(&self) -> RecordValueView {
        match self {
            RecordValue::Bytes(bytes) => RecordValueView::Bytes(bytes@),
            RecordValue::EcdsaSignature(signature) => RecordValueView::EcdsaSignature(signature@),
            RecordValue::EddsaSignature(signature) => RecordValueView::EddsaSignature(signature@),
            RecordValue::Text(text) => RecordValueView::Text(text@),
        }
    }
}

/// One value as a record shows it: the tag of its variant and its content.
#[derive(Clone, Debug, PartialEq, Eq)]
pub struct Record {
    /// The tag that names the variant.
    pub type_tag: String,
    /// The content.
    pub value: RecordValue,
}

/// What a [`Record`] holds.
pub struct RecordView {
    pub type_tag: Seq<char>,
    pub value: RecordValueView,
}

impl View for Record {
    type V = RecordView;

    open spec fn view(&self) -> RecordView {
        RecordView { type_tag: self.type_tag@, value: self.value@ }
    }
}

impl ClearValue {
    /// What a record shows of the value's content.
    pub open spec fn record_value(self) -> RecordValueView {
        match self {
            ClearValue::EcdsaSignature(signature) => RecordValueView::EcdsaSignature(signature),
            ClearValue::EddsaSignature(signature) => RecordValueView::EddsaSignature(signature),
            ClearValue::Integer(text)
            | ClearValue::SecretInteger(text)
            | ClearValue::UnsignedInteger(text)
            | ClearValue::SecretUnsignedInteger(text) => RecordValueView::Text(text),
            ClearValue::Boolean(bit) | ClearValue::SecretBoolean(bit) => RecordValueView::Text(
                if bit {
                    "true"@
                } else {
                    "false"@
                },
            ),
            ClearValue::SecretBlob(bytes)
            | ClearValue::EcdsaPrivateKey(bytes)
            | ClearValue::EcdsaDigestMessage(bytes)
            | ClearValue::EcdsaPublicKey(bytes)
            | ClearValue::EddsaPrivateKey(bytes)
            | ClearValue::EddsaPublicKey(bytes)
            | ClearValue::EddsaMessage(bytes)
            | ClearValue::StoreId(bytes) => RecordValueView::Bytes(bytes),
        }
    }

    /// The record of the value.
    pub open spec fn record(self) -> RecordView {
        RecordView { type_tag: self.type_tag(), value: self.record_value() }
    }
}

impl NadaValue {
    /// The record of the value: the tag of its variant, and its bytes, its
    /// signature components or its text.
    pub fn to_record(&self) -> (record: Result<Record, ValueError>)
        ensures
            record.is_ok(),
            record->Ok_0@ == self@.record(),
    {
        let type_tag = self.type_tag()?;
        let value = match &self.held {
            Held::SecretBlob(_)
            | Held::EcdsaPrivateKey(_)
            | Held::EcdsaDigestMessage(_)
            | Held::EcdsaPublicKey(_)
            | Held::EddsaPrivateKey(_)
            | Held::EddsaMessage(_)
            | Held::EddsaPublicKey(_)
            | Held::StoreId(_) => RecordValue::Bytes(self.to_byte_array()?),
            Held::EcdsaSignature(_) => RecordValue::EcdsaSignature(
                self.to_ecdsa_signature()?,
            ),
            Held::EddsaSignature(_) => RecordValue::EddsaSignature(
                self.to_eddsa_signature()?,
            ),
            _ => RecordValue::Text(self.to_integer()?),
        };
        Ok(Record { type_tag, value })
    }
}

/// A collection of named cleartext values, each name once. The view is the
/// sequence of entries in the order in which the names first came.
#[derive(Debug, PartialEq, Eq)]
pub struct NadaValues {
    values: NameMap<NadaValue>,
}

impl View for NadaValues {
    type V = Seq<(Seq<char>, ClearValue)>;

    closed spec fn view(&self) -> Seq<(Seq<char>, ClearValue)> {
        self.values@
    }
}

impl NadaValues {
    /// No name occurs twice.
    pub open spec fn wf(&self) -> bool {
        names_distinct(self@)
    }

    /// The mapping from names to values.
    pub open spec fn as_map(&self) -> Map<Seq<char>, ClearValue> {
        entries_map(self@)
    }

    /// A collection without values.
    pub fn new() -> (made: Result<NadaValues, ValueError>)
        ensures
            made.is_ok(),
            made->Ok_0@ == Seq::<(Seq<char>, ClearValue)>::empty(),
            made->Ok_0.wf(),
    {
        Ok(NadaValues { values: NameMap::new() })
    }

    /// Puts a copy of `input` under `name`, in the place of what was there
    /// under that name.
    pub fn insert(&mut self, name: String, input: &NadaValue)
        ensures
            final(self)@ == with_entry(old(self)@, name@, input@),
            final(self).as_map() == old(self).as_map().insert(name@, input@),
            final(self).wf(),
    {
        self.values.insert(name, input.duplicate());
    }

    /// The number of values.
    pub fn length(&self) -> (count: usize)
        ensures
            count == self@.len(),
            self.wf(),
    {
        self.values.len()
    }

    /// The name at position `i` in the order of the entries.
    pub fn name_at(&self, i: usize) -> (name: &String)
        requires
            i < self@.len(),
        ensures
            name@ == self@[i as int].0,
    {
        self.values.name_at(i)
    }

    /// The value at position `i` in the order of the entries.
    pub fn value_at(&self, i: usize) -> (value: &NadaValue)
        requires
            i < self@.len(),
        ensures
            value@ == self@[i as int].1,
            value@.wf(),
    {
        let value = self.values.value_at(i);
        proof {
            use_type_invariant(value);
        }
        value
    }

    /// The value called `name`, if there is one.
    pub fn get(&self, name: &String) -> (value: Option<&NadaValue>)
        ensures
            value.is_some() == self.as_map().dom().contains(name@),
            value matches Some(v) ==> v@ == self.as_map()[name@],
    {
        self.values.get(name)
    }

    /// Whether two collections hold the same values under the same names,
    /// in whatever order.
    pub fn same_as(&self, other: &NadaValues) -> (same: bool)
        ensures
            same == (self.as_map() == other.as_map()),
    {
        let mine = self.length();
        let theirs = other.length();
        let mut k: usize = 0;
        while k < mine
            invariant
                k <= mine,
                mine == self@.len(),
                self.wf(),
                other.wf(),
                forall|m: int|
                    0 <= m < k ==> other.as_map().dom().contains((#[trigger] self@[m]).0)
                        && other.as_map()[self@[m].0] == self@[m].1,
            decreases mine - k,
        {
            proof {
                lemma_entry_in_map(self@, k as int);
            }
            match other.get(self.name_at(k)) {
                None => {
                    assert(self.as_map().dom().contains(self@[k as int].0));
                    return false;
                },
                Some(value) => {
                    if !value.same_as(self.value_at(k)) {
                        return false;
                    }
                },
            }
            k = k + 1;
        }
        let mut k: usize = 0;
        while k < theirs
            invariant
                k <= theirs,
                theirs == other@.len(),
                self.wf(),
                other.wf(),
                forall|m: int|
                    0 <= m < k ==> self.as_map().dom().contains((#[trigger] other@[m]).0),
            decreases theirs - k,
        {
            proof {
                lemma_entry_in_map(other@, k as int);
            }
            if self.get(other.name_at(k)).is_none() {
                assert(other.as_map().dom().contains(other@[k as int].0));
                return false;
            }
            k = k + 1;
        }
        proof {
            lemma_same_entries(self@, other@);
        }
        true
    }

    /// A collection that holds the same.
    pub fn duplicate(&self) -> (copy: Self)
        ensures
            copy@ == self@,
            copy.wf(),
    {
        let count = self.values.len();
        let mut entries: Vec<(String, NadaValue)> = Vec::new();
        let mut i: usize = 0;
        while i < count
            invariant
                i <= count,
                count == self@.len(),
                entries@.len() == i,
                forall|k: int|
                    0 <= k < i ==> (#[trigger] entries@[k]).0@ == self@[k].0 && entries@[k].1@
                        == self@[k].1,
            decreases count - i,
        {
            entries.push((self.values.name_at(i).clone(), self.values.value_at(i).duplicate()));
            i = i + 1;
        }
        assert(Seq::new(entries@.len(), |i: int| (entries@[i].0@, entries@[i].1@)) =~= self@);
        NadaValues { values: NameMap::from_entries(entries) }
    }

    /// The record of each value, under its name and in the order of the
    /// entries.
    pub fn to_record(&self) -> (records: Result<Vec<(String, Record)>, ValueError>)
        ensures
            records.is_ok(),
            records->Ok_0@.len() == self@.len(),
            forall|i: int|
                0 <= i < self@.len() ==> (#[trigger] records->Ok_0@[i]).0@ == self@[i].0
                    && records->Ok_0@[i].1@ == self@[i].1.record(),
    {
        let mut records: Vec<(String, Record)> = Vec::new();
        let count = self.values.len();
        let mut i: usize = 0;
        while i < count
            invariant
                i <= count,
                count == self@.len(),
                records@.len() == i,
                forall|k: int|
                    0 <= k < i ==> (#[trigger] records@[k]).0@ == self@[k].0 && records@[k].1@
                        == self@[k].1.record(),
            decreases count - i,
        {
            let record = self.values.value_at(i).to_record()?;
            records.push((self.values.name_at(i).clone(), record));
            i = i + 1;
        }
        Ok(records)
    }
}

/// The text of a boolean.
fn boolean_text(bit: bool) -> (text: String)
    ensures
        text@ == if bit {
            "true"@
        } else {
            "false"@
        },
{
    if bit {
        "true".to_owned()
    } else {
        "false".to_owned()
    }
}

impl ClearValue {
    /// Whether the constructor of the value's variant, given what the
    /// value gives back of itself, makes the value again: its text is
    /// accepted and written back the same, its bytes have the fixed width,
    /// its scalars and points are read as themselves.
    pub open spec fn is_made_of_itself(self) -> bool {
        match self {
            ClearValue::Integer(text) | ClearValue::SecretInteger(text) => is_big_signed(text)
                && signed_decimal(big_signed_value(text)) == text,
            ClearValue::UnsignedInteger(text) | ClearValue::SecretUnsignedInteger(text) =>
                is_big_unsigned(text) && decimal(big_unsigned_value(text)) == text,
            ClearValue::EcdsaPrivateKey(bytes) => reads_as_ecdsa_secret(bytes) && pad_front(
                bytes,
                32,
            ) == bytes,
            ClearValue::EcdsaSignature(signature) => {
                &&& reads_as_ecdsa_secret(signature.r)
                &&& reads_as_ecdsa_secret(signature.s)
                &&& pad_front(signature.r, 32) == signature.r
                &&& pad_front(signature.s, 32) == signature.s
            },
            ClearValue::EddsaPrivateKey(bytes) => reads_as_eddsa_secret(bytes) && pad_back(
                bytes,
                32,
            ) == bytes,
            ClearValue::EddsaSignature(signature) => {
                &&& curve_point(Curve::Ed25519, signature.r) == Some(signature.r)
                &&& reads_as_scalar_le(Curve::Ed25519, signature.z)
                &&& pad_back(signature.z, 32) == signature.z
            },
            ClearValue::EcdsaDigestMessage(bytes) => bytes.len() == DIGEST_WIDTH,
            ClearValue::EcdsaPublicKey(bytes) => bytes.len() == ECDSA_PUBLIC_KEY_WIDTH,
            ClearValue::EddsaPublicKey(bytes) => bytes.len() == EDDSA_PUBLIC_KEY_WIDTH,
            ClearValue::StoreId(bytes) => bytes.len() == STORE_ID_WIDTH,
            _ => true,
        }
    }
}

/// Every well-formed value is made again by the constructor of its
/// variant from what the value gives back of itself: value for value for
/// numbers and booleans, byte for byte for the rest.
pub proof fn lemma_values_are_made_of_themselves(value: ClearValue)
    requires
        value.wf(),
    ensures
        value.is_made_of_itself(),
{
    match value {
        ClearValue::Integer(text) | ClearValue::SecretInteger(text) => {
            let v = choose|v: int| text == signed_decimal(v);
            lemma_signed_text_reads_back(v);
        },
        ClearValue::UnsignedInteger(text) | ClearValue::SecretUnsignedInteger(text) => {
            let n = choose|n: nat| text == decimal(n);
            lemma_unsigned_text_reads_back(n);
        },
        ClearValue::EcdsaPrivateKey(bytes) => {
            lemma_full_width_is_padded(bytes);
        },
        ClearValue::EcdsaSignature(signature) => {
            lemma_full_width_is_padded(signature.r);
            lemma_full_width_is_padded(signature.s);
        },
        ClearValue::EddsaPrivateKey(bytes) => {
            lemma_full_width_is_padded(bytes);
        },
        ClearValue::EddsaSignature(signature) => {
            lemma_full_width_is_padded(signature.z);
        },
        _ => {},
    }
}

} // verus!
