//! The interchange form of encrypted values: an object of named fields
//! for each value, with the tag of the variant under `type`.

use crate::bytes::{
    copy_bytes, copy_range, copy_rows, fixed_width, lemma_full_width_is_padded, pad_back,
    rows_view, zeros,
};
use crate::curves::{
    are_points, curve_point, is_all_zero, is_point, is_scalar_le, key_share_fits,
    key_share_holds, point_from_bytes, reads_as_scalar_le, scalar_from_le_bytes, Curve,
};
use crate::encrypted::{
    numbers_view, BlobShares, BlobSharesView, EcdsaSignatureShare, EcdsaSignatureShareView,
    EncodedModularNumber, EncodedModulo, EncodedNumberView, EncryptedNadaValue, EncryptedType,
    EncryptedValue, KeyShare, KeyShareView,
};
use crate::encrypted::EncryptedNadaValues;
use crate::errors::{EntryError, Field, Representation, ValueError};
use crate::name_map::{
    gathered, has_name, lemma_gathered_distinct, names_distinct, place_of, with_entry,
};
use crate::numbers::{
    decimal, is_small_unsigned, lemma_written_number_is_read, parse_u16, parse_u64,
    small_unsigned_value, write_u16, write_u64,
};
use crate::values::{
    EddsaSignature, EddsaSignatureView, DIGEST_WIDTH, ECDSA_PUBLIC_KEY_WIDTH,
    EDDSA_PUBLIC_KEY_WIDTH, STORE_ID_WIDTH,
};
use vstd::prelude::*;

verus! {

/// Bytes in a signature of EdDSA in one piece.
pub const EDDSA_SIGNATURE_WIDTH: usize = 64;

/// What a field of an interchange object holds.
#[derive(Clone, Debug, PartialEq, Eq)]
pub enum FieldValue {
    /// A byte array.
    Bytes(Vec<u8>),
    /// A list of byte arrays.
    List(Vec<Vec<u8>>),
    /// A text.
    Text(String),
}

/// What a [`FieldValue`] holds.
pub enum FieldView {
    Bytes(Seq<u8>),
    List(Seq<Seq<u8>>),
    Text(Seq<char>),
}

impl View for FieldValue {
    type V = FieldView;

    open spec fn view(&self) -> FieldView {
        match self {
            FieldValue::Bytes(bytes) => FieldView::Bytes(bytes@),
            FieldValue::List(rows) => FieldView::List(rows_view(rows@)),
            FieldValue::Text(text) => FieldView::Text(text@),
        }
    }
}

/// The interchange form of one value: its fields in order. Where a field
/// occurs twice, the first occurrence counts.
#[derive(Clone, Debug, PartialEq, Eq)]
pub struct InterchangeObject {
    /// The fields, each under its name.
    pub fields: Vec<(Field, FieldValue)>,
}

impl View for InterchangeObject {
    type V = Seq<(Field, FieldView)>;

    open spec fn view(&self) -> Seq<(Field, FieldView)> {
        Seq::new(self.fields@.len(), |i: int| (self.fields@[i].0, self.fields@[i].1@))
    }
}

/// Whether an outcome in memory is the outcome `wanted` of the model.
pub open spec fn agrees<T: View>(got: Result<T, ValueError>, wanted: Result<T::V, ValueError>) -> bool {
    match got {
        Ok(value) => wanted == Ok::<T::V, ValueError>(value@),
        Err(error) => wanted == Err::<T::V, ValueError>(error),
    }
}

/// What `fields` hold under `field`: the first entry of that name.
pub open spec fn field_of(fields: Seq<(Field, FieldView)>, field: Field) -> Option<FieldView>
    decreases fields.len(),
{
    if fields.len() == 0 {
        None
    } else if fields[0].0 == field {
        Some(fields[0].1)
    } else {
        field_of(fields.drop_first(), field)
    }
}

/// The byte array under `field`.
pub open spec fn bytes_of(fields: Seq<(Field, FieldView)>, field: Field) -> Result<
    Seq<u8>,
    ValueError,
> {
    match field_of(fields, field) {
        Some(FieldView::Bytes(bytes)) => Ok(bytes),
        _ => Err(ValueError::ValueParse { field }),
    }
}

/// The list of byte arrays under `field`.
pub open spec fn list_of(fields: Seq<(Field, FieldView)>, field: Field) -> Result<
    Seq<Seq<u8>>,
    ValueError,
> {
    match field_of(fields, field) {
        Some(FieldView::List(rows)) => Ok(rows),
        _ => Err(ValueError::ValueParse { field }),
    }
}

/// The text under `field`.
pub open spec fn text_of(fields: Seq<(Field, FieldView)>, field: Field) -> Result<
    Seq<char>,
    ValueError,
> {
    match field_of(fields, field) {
        Some(FieldView::Text(text)) => Ok(text),
        _ => Err(ValueError::ValueParse { field }),
    }
}

/// The variant that `tag` names, among those with an interchange form.
pub open spec fn type_of_tag(tag: Seq<char>) -> Option<EncryptedType> {
    if tag == "Integer"@ {
        Some(EncryptedType::Integer)
    } else if tag == "UnsignedInteger"@ {
        Some(EncryptedType::UnsignedInteger)
    } else if tag == "Boolean"@ {
        Some(EncryptedType::Boolean)
    } else if tag == "ShamirShareInteger"@ {
        Some(EncryptedType::ShamirShareInteger)
    } else if tag == "ShamirShareUnsignedInteger"@ {
        Some(EncryptedType::ShamirShareUnsignedInteger)
    } else if tag == "ShamirShareBoolean"@ {
        Some(EncryptedType::ShamirShareBoolean)
    } else if tag == "SecretBlob"@ {
        Some(EncryptedType::SecretBlob)
    } else if tag == "EcdsaPrivateKey"@ {
        Some(EncryptedType::EcdsaPrivateKey)
    } else if tag == "EcdsaDigestMessage"@ {
        Some(EncryptedType::EcdsaDigestMessage)
    } else if tag == "EcdsaSignature"@ {
        Some(EncryptedType::EcdsaSignature)
    } else if tag == "EcdsaPublicKey"@ {
        Some(EncryptedType::EcdsaPublicKey)
    } else if tag == "EddsaPrivateKey"@ {
        Some(EncryptedType::EddsaPrivateKey)
    } else if tag == "EddsaMessage"@ {
        Some(EncryptedType::EddsaMessage)
    } else if tag == "EddsaSignature"@ {
        Some(EncryptedType::EddsaSignature)
    } else if tag == "EddsaPublicKey"@ {
        Some(EncryptedType::EddsaPublicKey)
    } else if tag == "StoreId"@ {
        Some(EncryptedType::StoreId)
    } else {
        None
    }
}

/// The numbers of the field of `modulo` that `rows` encode, row by row.
pub open spec fn rows_as_numbers(rows: Seq<Seq<u8>>, modulo: EncodedModulo) -> Seq<
    EncodedNumberView,
> {
    Seq::new(rows.len(), |i: int| EncodedNumberView { bytes: rows[i], modulo })
}

/// The encoded bytes of `numbers`, number by number.
pub open spec fn numbers_as_rows(numbers: Seq<EncodedNumberView>) -> Seq<Seq<u8>> {
    Seq::new(numbers.len(), |i: int| numbers[i].bytes)
}

/// Whether each of `rows` encodes a point of `curve` other than the
/// identity.
pub open spec fn all_read_as_points(curve: Curve, rows: Seq<Seq<u8>>) -> bool {
    forall|i: int| 0 <= i < rows.len() ==> curve_point(curve, #[trigger] rows[i]).is_some()
}

/// The encoding that each point of `rows` is written in.
pub open spec fn written_points(curve: Curve, rows: Seq<Seq<u8>>) -> Seq<Seq<u8>> {
    Seq::new(rows.len(), |i: int| curve_point(curve, rows[i]).unwrap())
}

/// The encoded number under `value`, taken as it is.
pub open spec fn decoded_number(fields: Seq<(Field, FieldView)>, modulo: EncodedModulo) -> Result<
    EncodedNumberView,
    ValueError,
> {
    match bytes_of(fields, Field::Value) {
        Ok(bytes) => Ok(EncodedNumberView { bytes, modulo }),
        Err(error) => Err(error),
    }
}

/// The shares of a blob: the chunks under `shares`, then the byte count
/// under `originalSize`, a decimal text.
pub open spec fn decoded_blob(fields: Seq<(Field, FieldView)>, modulo: EncodedModulo) -> Result<
    BlobSharesView,
    ValueError,
> {
    match list_of(fields, Field::Shares) {
        Err(error) => Err(error),
        Ok(rows) => match text_of(fields, Field::OriginalSize) {
            Err(error) => Err(error),
            Ok(text) => if is_small_unsigned(text, 0x1_0000_0000_0000_0000) {
                Ok(
                    BlobSharesView {
                        value: rows_as_numbers(rows, modulo),
                        unencoded_size: small_unsigned_value(text) as u64,
                    },
                )
            } else {
                Err(ValueError::ValueParse { field: Field::OriginalSize })
            },
        },
    }
}

/// A byte field of the one width that its kind fixes.
pub open spec fn decoded_fixed(fields: Seq<(Field, FieldView)>, field: Field, width: usize) -> Result<
    Seq<u8>,
    ValueError,
> {
    match bytes_of(fields, field) {
        Err(error) => Err(error),
        Ok(bytes) => if bytes.len() == width {
            Ok(bytes)
        } else {
            Err(
                ValueError::LengthMismatch { field, expected: width, actual: bytes.len() as usize },
            )
        },
    }
}

/// A scalar of `curve` under `field`, in up to 32 bytes with the least
/// significant first.
pub open spec fn decoded_scalar(fields: Seq<(Field, FieldView)>, field: Field, curve: Curve) -> Result<
    Seq<u8>,
    ValueError,
> {
    match bytes_of(fields, field) {
        Err(error) => Err(error),
        Ok(bytes) => if reads_as_scalar_le(curve, bytes) {
            Ok(pad_back(bytes, 32))
        } else {
            Err(ValueError::ScalarOrPointInvalid { field })
        },
    }
}

/// A share of a key of `curve`: the index under `i`, a decimal text below
/// 65536; the secret scalar under `x`, not zero; the points under
/// `sharedPublicKey` and `publicShares`; all of which must fit together.
/// The first part that is refused gives the error.
pub open spec fn decoded_key_share(fields: Seq<(Field, FieldView)>, curve: Curve) -> Result<
    KeyShareView,
    ValueError,
> {
    match text_of(fields, Field::I) {
        Err(error) => Err(error),
        Ok(text) => if !is_small_unsigned(text, 0x1_0000) {
            Err(ValueError::ValueParse { field: Field::I })
        } else {
            match decoded_scalar(fields, Field::X, curve) {
                Err(error) => Err(error),
                Ok(x) => if x == zeros(32) {
                    Err(ValueError::ScalarOrPointInvalid { field: Field::X })
                } else {
                    match bytes_of(fields, Field::SharedPublicKey) {
                        Err(error) => Err(error),
                        Ok(shared) => if curve_point(curve, shared).is_none() {
                            Err(ValueError::ScalarOrPointInvalid { field: Field::SharedPublicKey })
                        } else {
                            match list_of(fields, Field::PublicShares) {
                                Err(error) => Err(error),
                                Ok(rows) => {
                                    let share = KeyShareView {
                                        i: small_unsigned_value(text) as u16,
                                        x,
                                        shared_public_key: curve_point(curve, shared).unwrap(),
                                        public_shares: written_points(curve, rows),
                                    };
                                    if all_read_as_points(curve, rows) && key_share_fits(
                                        curve,
                                        share.i,
                                        share.x,
                                        share.shared_public_key,
                                        share.public_shares,
                                    ) {
                                        Ok(share)
                                    } else {
                                        Err(
                                            ValueError::ScalarOrPointInvalid {
                                                field: Field::PublicShares,
                                            },
                                        )
                                    }
                                },
                            }
                        },
                    }
                },
            }
        },
    }
}

/// A share of a signature of ECDSA: the scalars under `r` and `sigma`.
pub open spec fn decoded_ecdsa_signature(fields: Seq<(Field, FieldView)>) -> Result<
    EcdsaSignatureShareView,
    ValueError,
> {
    match decoded_scalar(fields, Field::R, Curve::Secp256k1) {
        Err(error) => Err(error),
        Ok(r) => match decoded_scalar(fields, Field::Sigma, Curve::Secp256k1) {
            Err(error) => Err(error),
            Ok(sigma) => Ok(EcdsaSignatureShareView { r, sigma }),
        },
    }
}

/// A signature of EdDSA: 64 bytes under `signature`, the point `r` in the
/// first half and the scalar `z` in the second.
pub open spec fn decoded_eddsa_signature(fields: Seq<(Field, FieldView)>) -> Result<
    EddsaSignatureView,
    ValueError,
> {
    match decoded_fixed(fields, Field::Signature, EDDSA_SIGNATURE_WIDTH) {
        Err(error) => Err(error),
        Ok(bytes) => {
            let r = bytes.subrange(0, 32);
            let z = bytes.subrange(32, 64);
            if curve_point(Curve::Ed25519, r).is_none() {
                Err(ValueError::ScalarOrPointInvalid { field: Field::R })
            } else if !reads_as_scalar_le(Curve::Ed25519, z) {
                Err(ValueError::ScalarOrPointInvalid { field: Field::Z })
            } else {
                Ok(EddsaSignatureView { r: curve_point(Curve::Ed25519, r).unwrap(), z })
            }
        },
    }
}

/// The value of variant `variant` that `fields` encode, with numbers in
/// the field of `modulo`.
pub open spec fn decoded_as(
    variant: EncryptedType,
    fields: Seq<(Field, FieldView)>,
    modulo: EncodedModulo,
) -> Result<EncryptedValue, ValueError> {
    match variant {
        EncryptedType::Integer => match decoded_number(fields, modulo) {
            Ok(n) => Ok(EncryptedValue::Integer(n)),
            Err(error) => Err(error),
        },
        EncryptedType::UnsignedInteger => match decoded_number(fields, modulo) {
            Ok(n) => Ok(EncryptedValue::UnsignedInteger(n)),
            Err(error) => Err(error),
        },
        EncryptedType::Boolean => match decoded_number(fields, modulo) {
            Ok(n) => Ok(EncryptedValue::Boolean(n)),
            Err(error) => Err(error),
        },
        EncryptedType::ShamirShareInteger => match decoded_number(fields, modulo) {
            Ok(n) => Ok(EncryptedValue::ShamirShareInteger(n)),
            Err(error) => Err(error),
        },
        EncryptedType::ShamirShareUnsignedInteger => match decoded_number(fields, modulo) {
            Ok(n) => Ok(EncryptedValue::ShamirShareUnsignedInteger(n)),
            Err(error) => Err(error),
        },
        EncryptedType::ShamirShareBoolean => match decoded_number(fields, modulo) {
            Ok(n) => Ok(EncryptedValue::ShamirShareBoolean(n)),
            Err(error) => Err(error),
        },
        EncryptedType::SecretBlob => match decoded_blob(fields, modulo) {
            Ok(blob) => Ok(EncryptedValue::SecretBlob(blob)),
            Err(error) => Err(error),
        },
        EncryptedType::EcdsaPrivateKey => match decoded_key_share(fields, Curve::Secp256k1) {
            Ok(share) => Ok(EncryptedValue::EcdsaPrivateKey(share)),
            Err(error) => Err(error),
        },
        EncryptedType::EcdsaDigestMessage => match decoded_fixed(
            fields,
            Field::Digest,
            DIGEST_WIDTH,
        ) {
            Ok(bytes) => Ok(EncryptedValue::EcdsaDigestMessage(bytes)),
            Err(error) => Err(error),
        },
        EncryptedType::EcdsaSignature => match decoded_ecdsa_signature(fields) {
            Ok(share) => Ok(EncryptedValue::EcdsaSignature(share)),
            Err(error) => Err(error),
        },
        EncryptedType::EcdsaPublicKey => match decoded_fixed(
            fields,
            Field::PublicKey,
            ECDSA_PUBLIC_KEY_WIDTH,
        ) {
            Ok(bytes) => Ok(EncryptedValue::EcdsaPublicKey(bytes)),
            Err(error) => Err(error),
        },
        EncryptedType::EddsaPrivateKey => match decoded_key_share(fields, Curve::Ed25519) {
            Ok(share) => Ok(EncryptedValue::EddsaPrivateKey(share)),
            Err(error) => Err(error),
        },
        EncryptedType::EddsaMessage => match bytes_of(fields, Field::Message) {
            Ok(bytes) => Ok(EncryptedValue::EddsaMessage(bytes)),
            Err(error) => Err(error),
        },
        EncryptedType::EddsaSignature => match decoded_eddsa_signature(fields) {
            Ok(signature) => Ok(EncryptedValue::EddsaSignature(signature)),
            Err(error) => Err(error),
        },
        EncryptedType::EddsaPublicKey => match decoded_fixed(
            fields,
            Field::PublicKey,
            EDDSA_PUBLIC_KEY_WIDTH,
        ) {
            Ok(bytes) => Ok(EncryptedValue::EddsaPublicKey(bytes)),
            Err(error) => Err(error),
        },
        EncryptedType::StoreId => match decoded_fixed(fields, Field::StoreId, STORE_ID_WIDTH) {
            Ok(bytes) => Ok(EncryptedValue::StoreId(bytes)),
            Err(error) => Err(error),
        },
        _ => Err(ValueError::ValueParse { field: Field::Type }),
    }
}

/// The value that `fields` encode, with numbers in the field of `modulo`:
/// the text under `type` names the variant, which fixes the other fields.
pub open spec fn decoded(fields: Seq<(Field, FieldView)>, modulo: EncodedModulo) -> Result<
    EncryptedValue,
    ValueError,
> {
    match text_of(fields, Field::Type) {
        Err(error) => Err(error),
        Ok(tag) => match type_of_tag(tag) {
            None => Err(ValueError::ValueParse { field: Field::Type }),
            Some(variant) => decoded_as(variant, fields, modulo),
        },
    }
}

/// The fields that follow `type` in the interchange form of `value`.
pub open spec fn encoded_fields(value: EncryptedValue) -> Seq<(Field, FieldView)> {
    match value {
        EncryptedValue::Integer(n)
        | EncryptedValue::UnsignedInteger(n)
        | EncryptedValue::Boolean(n)
        | EncryptedValue::ShamirShareInteger(n)
        | EncryptedValue::ShamirShareUnsignedInteger(n)
        | EncryptedValue::ShamirShareBoolean(n) => seq![(Field::Value, FieldView::Bytes(n.bytes))],
        EncryptedValue::SecretBlob(blob) => seq![
            (Field::Shares, FieldView::List(numbers_as_rows(blob.value))),
            (Field::OriginalSize, FieldView::Text(decimal(blob.unencoded_size as nat))),
        ],
        EncryptedValue::EcdsaPrivateKey(share) | EncryptedValue::EddsaPrivateKey(share) => seq![
            (Field::I, FieldView::Text(decimal(share.i as nat))),
            (Field::X, FieldView::Bytes(share.x)),
            (Field::SharedPublicKey, FieldView::Bytes(share.shared_public_key)),
            (Field::PublicShares, FieldView::List(share.public_shares)),
        ],
        EncryptedValue::EcdsaDigestMessage(bytes) => seq![(Field::Digest, FieldView::Bytes(bytes))],
        EncryptedValue::EcdsaSignature(share) => seq![
            (Field::R, FieldView::Bytes(share.r)),
            (Field::Sigma, FieldView::Bytes(share.sigma)),
        ],
        EncryptedValue::EcdsaPublicKey(bytes) | EncryptedValue::EddsaPublicKey(bytes) => seq![
            (Field::PublicKey, FieldView::Bytes(bytes)),
        ],
        EncryptedValue::EddsaMessage(bytes) => seq![(Field::Message, FieldView::Bytes(bytes))],
        EncryptedValue::EddsaSignature(signature) => seq![
            (Field::Signature, FieldView::Bytes(signature.r + signature.z)),
        ],
        EncryptedValue::StoreId(bytes) => seq![(Field::StoreId, FieldView::Bytes(bytes))],
        _ => Seq::empty(),
    }
}

/// The interchange form of `value`: the tag of its variant under `type`,
/// then the fields of the variant. Secret numbers that were not shared and
/// nested structures have none.
pub open spec fn encoded(value: EncryptedValue) -> Result<Seq<(Field, FieldView)>, ValueError> {
    if value.variant().is_exchanged() {
        Ok(seq![(Field::Type, FieldView::Text(value.variant().tag()))] + encoded_fields(value))
    } else {
        Err(ValueError::UnsupportedConversion { wanted: Representation::Interchange })
    }
}

impl Field {
    /// The name of the part, as interchange objects spell it.
    pub open spec fn spelling(self) -> Seq<char> {
        match self {
            Field::Type => "type"@,
            Field::Value => "value"@,
            Field::Shares => "shares"@,
            Field::OriginalSize => "originalSize"@,
            Field::I => "i"@,
            Field::X => "x"@,
            Field::SharedPublicKey => "sharedPublicKey"@,
            Field::PublicShares => "publicShares"@,
            Field::Digest => "digest"@,
            Field::R => "r"@,
            Field::S => "s"@,
            Field::Sigma => "sigma"@,
            Field::Z => "z"@,
            Field::PublicKey => "publicKey"@,
            Field::Message => "message"@,
            Field::Signature => "signature"@,
            Field::StoreId => "storeId"@,
        }
    }

    /// The name of the part, as interchange objects spell it.
    pub fn name(&self) -> (name: &'static str)
        ensures
            name@ == self.spelling(),
    {
        match self {
            Field::Type => "type",
            Field::Value => "value",
            Field::Shares => "shares",
            Field::OriginalSize => "originalSize",
            Field::I => "i",
            Field::X => "x",
            Field::SharedPublicKey => "sharedPublicKey",
            Field::PublicShares => "publicShares",
            Field::Digest => "digest",
            Field::R => "r",
            Field::S => "s",
            Field::Sigma => "sigma",
            Field::Z => "z",
            Field::PublicKey => "publicKey",
            Field::Message => "message",
            Field::Signature => "signature",
            Field::StoreId => "storeId",
        }
    }
}

/// Whether two texts are the same.
fn same_text(left: &str, right: &str) -> (same: bool)
    ensures
        same == (left@ == right@),
{
    left.to_owned() == right.to_owned()
}

impl EncryptedType {
    /// The variant that `name` names, among those with an interchange
    /// form.
    pub fn from_name(name: &str) -> (variant: Option<EncryptedType>)
        ensures
            variant == type_of_tag(name@),
    {
        if same_text(name, "Integer") {
            Some(EncryptedType::Integer)
        } else if same_text(name, "UnsignedInteger") {
            Some(EncryptedType::UnsignedInteger)
        } else if same_text(name, "Boolean") {
            Some(EncryptedType::Boolean)
        } else if same_text(name, "ShamirShareInteger") {
            Some(EncryptedType::ShamirShareInteger)
        } else if same_text(name, "ShamirShareUnsignedInteger") {
            Some(EncryptedType::ShamirShareUnsignedInteger)
        } else if same_text(name, "ShamirShareBoolean") {
            Some(EncryptedType::ShamirShareBoolean)
        } else if same_text(name, "SecretBlob") {
            Some(EncryptedType::SecretBlob)
        } else if same_text(name, "EcdsaPrivateKey") {
            Some(EncryptedType::EcdsaPrivateKey)
        } else if same_text(name, "EcdsaDigestMessage") {
            Some(EncryptedType::EcdsaDigestMessage)
        } else if same_text(name, "EcdsaSignature") {
            Some(EncryptedType::EcdsaSignature)
        } else if same_text(name, "EcdsaPublicKey") {
            Some(EncryptedType::EcdsaPublicKey)
        } else if same_text(name, "EddsaPrivateKey") {
            Some(EncryptedType::EddsaPrivateKey)
        } else if same_text(name, "EddsaMessage") {
            Some(EncryptedType::EddsaMessage)
        } else if same_text(name, "EddsaSignature") {
            Some(EncryptedType::EddsaSignature)
        } else if same_text(name, "EddsaPublicKey") {
            Some(EncryptedType::EddsaPublicKey)
        } else if same_text(name, "StoreId") {
            Some(EncryptedType::StoreId)
        } else {
            None
        }
    }
}

impl InterchangeObject {
    /// What the object holds under `field`, if anything.
    pub fn get(&self, field: Field) -> (found: Option<&FieldValue>)
        ensures
            found.is_some() == field_of(self@, field).is_some(),
            found matches Some(value) ==> field_of(self@, field) == Some(value@),
    {
        let mut i: usize = 0;
        assert(self@.skip(0) =~= self@);
        while i < self.fields.len()
            invariant
                i <= self.fields.len(),
                self@.len() == self.fields@.len(),
                field_of(self@, field) == field_of(self@.skip(i as int), field),
            decreases self.fields.len() - i,
        {
            assert(self@.skip(i as int)[0] == self@[i as int]);
            if self.fields[i].0 == field {
                return Some(&self.fields[i].1);
            }
            assert(self@.skip(i as int).drop_first() =~= self@.skip(i + 1));
            i = i + 1;
        }
        None
    }

    /// The byte array under `field`.
    fn bytes_field(&self, field: Field) -> (bytes: Result<&Vec<u8>, ValueError>)
        ensures
            agrees(bytes, bytes_of(self@, field)),
    {
        match self.get(field) {
            Some(FieldValue::Bytes(bytes)) => Ok(bytes),
            _ => Err(ValueError::ValueParse { field }),
        }
    }

    /// The list of byte arrays under `field`.
    fn list_field(&self, field: Field) -> (rows: Result<&Vec<Vec<u8>>, ValueError>)
        ensures
            match rows {
                Ok(rows) => list_of(self@, field) == Ok::<Seq<Seq<u8>>, ValueError>(
                    rows_view(rows@),
                ),
                Err(error) => list_of(self@, field) == Err::<Seq<Seq<u8>>, ValueError>(error),
            },
    {
        match self.get(field) {
            Some(FieldValue::List(rows)) => Ok(rows),
            _ => Err(ValueError::ValueParse { field }),
        }
    }

    /// The text under `field`.
    fn text_field(&self, field: Field) -> (text: Result<&String, ValueError>)
        ensures
            agrees(text, text_of(self@, field)),
    {
        match self.get(field) {
            Some(FieldValue::Text(text)) => Ok(text),
            _ => Err(ValueError::ValueParse { field }),
        }
    }

    /// The encoded number under `value`.
    fn decode_number(&self, modulo: EncodedModulo) -> (number: Result<
        EncodedModularNumber,
        ValueError,
    >)
        ensures
            agrees(number, decoded_number(self@, modulo)),
    {
        let bytes = self.bytes_field(Field::Value)?;
        Ok(EncodedModularNumber::new_unchecked(copy_bytes(bytes), modulo))
    }

    /// The shares of a blob.
    fn decode_blob(&self, modulo: EncodedModulo) -> (blob: Result<BlobShares, ValueError>)
        ensures
            agrees(blob, decoded_blob(self@, modulo)),
    {
        let rows = self.list_field(Field::Shares)?;
        let mut value: Vec<EncodedModularNumber> = Vec::new();
        let mut i: usize = 0;
        while i < rows.len()
            invariant
                i <= rows.len(),
                value@.len() == i,
                forall|k: int|
                    0 <= k < i ==> (#[trigger] value@[k])@ == (EncodedNumberView {
                        bytes: rows@[k]@,
                        modulo,
                    }),
            decreases rows.len() - i,
        {
            value.push(EncodedModularNumber::new_unchecked(copy_bytes(&rows[i]), modulo));
            i = i + 1;
        }
        assert(numbers_view(value@) =~= rows_as_numbers(rows_view(rows@), modulo));
        let text = self.text_field(Field::OriginalSize)?;
        match parse_u64(text.as_str()) {
            Some(unencoded_size) => Ok(BlobShares { value, unencoded_size }),
            None => Err(ValueError::ValueParse { field: Field::OriginalSize }),
        }
    }

    /// A byte field of the one width that its kind fixes.
    fn decode_fixed(&self, field: Field, width: usize) -> (bytes: Result<Vec<u8>, ValueError>)
        ensures
            agrees(bytes, decoded_fixed(self@, field, width)),
    {
        let bytes = self.bytes_field(field)?;
        fixed_width(copy_bytes(bytes), width, field)
    }

    /// A scalar of `curve` under `field`.
    fn decode_scalar(&self, field: Field, curve: Curve) -> (scalar: Result<Vec<u8>, ValueError>)
        ensures
            agrees(scalar, decoded_scalar(self@, field, curve)),
            scalar matches Ok(full) ==> is_scalar_le(curve, full@),
    {
        let bytes = self.bytes_field(field)?;
        match scalar_from_le_bytes(curve, bytes) {
            Some(scalar) => Ok(scalar),
            None => Err(ValueError::ScalarOrPointInvalid { field }),
        }
    }

    /// A share of a key of `curve`.
    #[verifier::loop_isolation(false)]
    fn decode_key_share(&self, curve: Curve) -> (share: Result<KeyShare, ValueError>)
        ensures
            agrees(share, decoded_key_share(self@, curve)),
            share matches Ok(made) ==> made@.wf(curve),
    {
        let text = self.text_field(Field::I)?;
        let i = match parse_u16(text.as_str()) {
            Some(i) => i,
            None => {
                return Err(ValueError::ValueParse { field: Field::I });
            },
        };
        let x = self.decode_scalar(Field::X, curve)?;
        if is_all_zero(&x) {
            return Err(ValueError::ScalarOrPointInvalid { field: Field::X });
        }
        let shared = self.bytes_field(Field::SharedPublicKey)?;
        let shared_public_key = match point_from_bytes(curve, shared) {
            Some(point) => point,
            None => {
                return Err(ValueError::ScalarOrPointInvalid { field: Field::SharedPublicKey });
            },
        };
        let rows = self.list_field(Field::PublicShares)?;
        let mut public_shares: Vec<Vec<u8>> = Vec::new();
        let mut k: usize = 0;
        while k < rows.len()
            invariant
                k <= rows.len(),
                public_shares@.len() == k,
                forall|j: int|
                    0 <= j < k ==> curve_point(curve, rows@[j]@) == Some(
                        (#[trigger] public_shares@[j])@,
                    ) && is_point(curve, public_shares@[j]@),
            decreases rows.len() - k,
        {
            match point_from_bytes(curve, &rows[k]) {
                Some(point) => {
                    public_shares.push(point);
                },
                None => {
                    assert(curve_point(curve, rows_view(rows@)[k as int]).is_none());
                    return Err(ValueError::ScalarOrPointInvalid { field: Field::PublicShares });
                },
            }
            k = k + 1;
        }
        assert(all_read_as_points(curve, rows_view(rows@))) by {
            assert forall|j: int| 0 <= j < rows_view(rows@).len() implies curve_point(
                curve,
                #[trigger] rows_view(rows@)[j],
            ).is_some() by {
                assert(is_point(curve, public_shares@[j]@));
            }
        }
        assert(rows_view(public_shares@) =~= written_points(curve, rows_view(rows@)));
        assert(are_points(curve, rows_view(public_shares@))) by {
            assert forall|j: int| 0 <= j < rows_view(public_shares@).len() implies is_point(
                curve,
                #[trigger] rows_view(public_shares@)[j],
            ) by {
                assert(is_point(curve, public_shares@[j]@));
            }
        }
        if !key_share_holds(curve, i, &x, &shared_public_key, &public_shares) {
            return Err(ValueError::ScalarOrPointInvalid { field: Field::PublicShares });
        }
        Ok(KeyShare { i, x, shared_public_key, public_shares })
    }

    /// A share of a signature of ECDSA.
    fn decode_ecdsa_signature(&self) -> (share: Result<EcdsaSignatureShare, ValueError>)
        ensures
            agrees(share, decoded_ecdsa_signature(self@)),
            share matches Ok(made) ==> is_scalar_le(Curve::Secp256k1, made@.r) && is_scalar_le(
                Curve::Secp256k1,
                made@.sigma,
            ),
    {
        let r = self.decode_scalar(Field::R, Curve::Secp256k1)?;
        let sigma = self.decode_scalar(Field::Sigma, Curve::Secp256k1)?;
        Ok(EcdsaSignatureShare { r, sigma })
    }

    /// A signature of EdDSA.
    fn decode_eddsa_signature(&self) -> (signature: Result<EddsaSignature, ValueError>)
        ensures
            agrees(signature, decoded_eddsa_signature(self@)),
            signature matches Ok(made) ==> is_point(Curve::Ed25519, made@.r) && is_scalar_le(
                Curve::Ed25519,
                made@.z,
            ),
    {
        let bytes = self.decode_fixed(Field::Signature, EDDSA_SIGNATURE_WIDTH)?;
        let r = copy_range(&bytes, 0, 32);
        let z = copy_range(&bytes, 32, 64);
        let r = match point_from_bytes(Curve::Ed25519, &r) {
            Some(point) => point,
            None => {
                return Err(ValueError::ScalarOrPointInvalid { field: Field::R });
            },
        };
        match scalar_from_le_bytes(Curve::Ed25519, &z) {
            Some(scalar) => {
                proof {
                    lemma_full_width_is_padded(z@);
                }
                Ok(EddsaSignature::new(r, scalar))
            },
            None => Err(ValueError::ScalarOrPointInvalid { field: Field::Z }),
        }
    }

    /// The value that the object encodes, with numbers in the field of
    /// `modulo`. The text under `type` names the variant, which fixes the
    /// fields that are read and checked: fixed widths, scalars in range,
    /// points on their curve, key shares whose parts fit together. The
    /// error names the first field that is refused.
    pub fn decode(&self, modulo: EncodedModulo) -> (value: Result<EncryptedNadaValue, ValueError>)
        ensures
            agrees(value, decoded(self@, modulo)),
            value matches Ok(made) ==> made@.wf() && made@.is_in_field(modulo)
                && made@.variant().is_exchanged(),
    {
        let tag = self.text_field(Field::Type)?;
        let variant = match EncryptedType::from_name(tag.as_str()) {
            Some(variant) => variant,
            None => {
                return Err(ValueError::ValueParse { field: Field::Type });
            },
        };
        match variant {
            EncryptedType::Integer => Ok(EncryptedNadaValue::Integer(self.decode_number(modulo)?)),
            EncryptedType::UnsignedInteger => Ok(
                EncryptedNadaValue::UnsignedInteger(self.decode_number(modulo)?),
            ),
            EncryptedType::Boolean => Ok(EncryptedNadaValue::Boolean(self.decode_number(modulo)?)),
            EncryptedType::ShamirShareInteger => Ok(
                EncryptedNadaValue::ShamirShareInteger(self.decode_number(modulo)?),
            ),
            EncryptedType::ShamirShareUnsignedInteger => Ok(
                EncryptedNadaValue::ShamirShareUnsignedInteger(self.decode_number(modulo)?),
            ),
            EncryptedType::ShamirShareBoolean => Ok(
                EncryptedNadaValue::ShamirShareBoolean(self.decode_number(modulo)?),
            ),
            EncryptedType::SecretBlob => {
                let blob = self.decode_blob(modulo)?;
                assert(blob@.value == rows_as_numbers(
                    list_of(self@, Field::Shares)->Ok_0,
                    modulo,
                ));
                Ok(EncryptedNadaValue::SecretBlob(blob))
            },
            EncryptedType::EcdsaPrivateKey => Ok(
                EncryptedNadaValue::EcdsaPrivateKey(self.decode_key_share(Curve::Secp256k1)?),
            ),
            EncryptedType::EcdsaDigestMessage => Ok(
                EncryptedNadaValue::EcdsaDigestMessage(
                    self.decode_fixed(Field::Digest, DIGEST_WIDTH)?,
                ),
            ),
            EncryptedType::EcdsaSignature => Ok(
                EncryptedNadaValue::EcdsaSignature(self.decode_ecdsa_signature()?),
            ),
            EncryptedType::EcdsaPublicKey => Ok(
                EncryptedNadaValue::EcdsaPublicKey(
                    self.decode_fixed(Field::PublicKey, ECDSA_PUBLIC_KEY_WIDTH)?,
                ),
            ),
            EncryptedType::EddsaPrivateKey => Ok(
                EncryptedNadaValue::EddsaPrivateKey(self.decode_key_share(Curve::Ed25519)?),
            ),
            EncryptedType::EddsaMessage => {
                let bytes = self.bytes_field(Field::Message)?;
                Ok(EncryptedNadaValue::EddsaMessage(copy_bytes(bytes)))
            },
            EncryptedType::EddsaSignature => Ok(
                EncryptedNadaValue::EddsaSignature(self.decode_eddsa_signature()?),
            ),
            EncryptedType::EddsaPublicKey => Ok(
                EncryptedNadaValue::EddsaPublicKey(
                    self.decode_fixed(Field::PublicKey, EDDSA_PUBLIC_KEY_WIDTH)?,
                ),
            ),
            EncryptedType::StoreId => Ok(
                EncryptedNadaValue::StoreId(self.decode_fixed(Field::StoreId, STORE_ID_WIDTH)?),
            ),
            _ => Err(ValueError::ValueParse { field: Field::Type }),
        }
    }
}

/// The field `type` of a value of variant `variant`.
fn type_field(variant: EncryptedType) -> (field: (Field, FieldValue))
    ensures
        field.0 == Field::Type,
        field.1@ == FieldView::Text(variant.tag()),
{
    (Field::Type, FieldValue::Text(variant.name().to_owned()))
}

impl KeyShare {
    /// The interchange form of the share under the tag of `variant`: the
    /// index as decimal text under `i`, the secret scalar under `x`, the
    /// points under `sharedPublicKey` and `publicShares`.
    pub fn encode(&self, variant: EncryptedType) -> (object: InterchangeObject)
        ensures
            object@ == seq![
                (Field::Type, FieldView::Text(variant.tag())),
                (Field::I, FieldView::Text(decimal(self@.i as nat))),
                (Field::X, FieldView::Bytes(self@.x)),
                (Field::SharedPublicKey, FieldView::Bytes(self@.shared_public_key)),
                (Field::PublicShares, FieldView::List(self@.public_shares)),
            ],
    {
        let mut fields: Vec<(Field, FieldValue)> = Vec::new();
        fields.push(type_field(variant));
        fields.push((Field::I, FieldValue::Text(write_u16(self.i))));
        fields.push((Field::X, FieldValue::Bytes(copy_bytes(&self.x))));
        fields.push(
            (Field::SharedPublicKey, FieldValue::Bytes(copy_bytes(&self.shared_public_key))),
        );
        fields.push((Field::PublicShares, FieldValue::List(copy_rows(&self.public_shares))));
        let object = InterchangeObject { fields };
        assert(object@ =~= seq![
            (Field::Type, FieldView::Text(variant.tag())),
            (Field::I, FieldView::Text(decimal(self@.i as nat))),
            (Field::X, FieldView::Bytes(self@.x)),
            (Field::SharedPublicKey, FieldView::Bytes(self@.shared_public_key)),
            (Field::PublicShares, FieldView::List(self@.public_shares)),
        ]);
        object
    }
}

/// An object of the field `type` and one byte field.
fn bytes_object(variant: EncryptedType, field: Field, bytes: &Vec<u8>) -> (object:
    InterchangeObject)
    ensures
        object@ == seq![
            (Field::Type, FieldView::Text(variant.tag())),
            (field, FieldView::Bytes(bytes@)),
        ],
{
    let mut fields: Vec<(Field, FieldValue)> = Vec::new();
    fields.push(type_field(variant));
    fields.push((field, FieldValue::Bytes(copy_bytes(bytes))));
    let object = InterchangeObject { fields };
    assert(object@ =~= seq![
        (Field::Type, FieldView::Text(variant.tag())),
        (field, FieldView::Bytes(bytes@)),
    ]);
    object
}

impl EncryptedNadaValue {
    /// The interchange form of the value: the tag of its variant under
    /// `type`, then the fields of the variant. Secret numbers that were
    /// not shared and nested structures have none.
    pub fn encode(&self) -> (object: Result<InterchangeObject, ValueError>)
        ensures
            agrees(object, encoded(self@)),
    {
        let variant = self.to_type();
        let object = match self {
            EncryptedNadaValue::Integer(n)
            | EncryptedNadaValue::UnsignedInteger(n)
            | EncryptedNadaValue::Boolean(n)
            | EncryptedNadaValue::ShamirShareInteger(n)
            | EncryptedNadaValue::ShamirShareUnsignedInteger(n)
            | EncryptedNadaValue::ShamirShareBoolean(n) => bytes_object(
                variant,
                Field::Value,
                n.as_bytes(),
            ),
            EncryptedNadaValue::SecretBlob(blob) => {
                let mut rows: Vec<Vec<u8>> = Vec::new();
                let mut i: usize = 0;
                while i < blob.value.len()
                    invariant
                        i <= blob.value.len(),
                        rows@.len() == i,
                        forall|k: int| 0 <= k < i ==> (#[trigger] rows@[k])@ == blob.value@[k]@.bytes,
                    decreases blob.value.len() - i,
                {
                    rows.push(copy_bytes(blob.value[i].as_bytes()));
                    i = i + 1;
                }
                assert(rows_view(rows@) =~= numbers_as_rows(blob@.value));
                let mut fields: Vec<(Field, FieldValue)> = Vec::new();
                fields.push(type_field(variant));
                fields.push((Field::Shares, FieldValue::List(rows)));
                fields.push(
                    (Field::OriginalSize, FieldValue::Text(write_u64(blob.unencoded_size))),
                );
                let object = InterchangeObject { fields };
                assert(object@ =~= seq![(Field::Type, FieldView::Text(variant.tag()))]
                    + encoded_fields(self@));
                object
            },
            EncryptedNadaValue::EcdsaPrivateKey(share) => share.encode(variant),
            EncryptedNadaValue::EcdsaDigestMessage(bytes) => bytes_object(
                variant,
                Field::Digest,
                bytes,
            ),
            EncryptedNadaValue::EcdsaSignature(share) => {
                let mut fields: Vec<(Field, FieldValue)> = Vec::new();
                fields.push(type_field(variant));
                fields.push((Field::R, FieldValue::Bytes(copy_bytes(&share.r))));
                fields.push((Field::Sigma, FieldValue::Bytes(copy_bytes(&share.sigma))));
                let object = InterchangeObject { fields };
                assert(object@ =~= seq![(Field::Type, FieldView::Text(variant.tag()))]
                    + encoded_fields(self@));
                object
            },
            EncryptedNadaValue::EcdsaPublicKey(bytes) => bytes_object(
                variant,
                Field::PublicKey,
                bytes,
            ),
            EncryptedNadaValue::EddsaPrivateKey(share) => share.encode(variant),
            EncryptedNadaValue::EddsaMessage(bytes) => bytes_object(variant, Field::Message, bytes),
            EncryptedNadaValue::EddsaSignature(signature) => {
                let bytes = signature.signature();
                bytes_object(variant, Field::Signature, &bytes)
            },
            EncryptedNadaValue::EddsaPublicKey(bytes) => bytes_object(
                variant,
                Field::PublicKey,
                bytes,
            ),
            EncryptedNadaValue::StoreId(bytes) => bytes_object(variant, Field::StoreId, bytes),
            _ => {
                return Err(
                    ValueError::UnsupportedConversion { wanted: Representation::Interchange },
                );
            },
        };
        assert(object@ =~= seq![(Field::Type, FieldView::Text(variant.tag()))] + encoded_fields(
            self@,
        ));
        Ok(object)
    }
}

/// What a list of named interchange objects holds.
pub open spec fn objects_view(objects: Seq<(String, InterchangeObject)>) -> Seq<
    (Seq<char>, Seq<(Field, FieldView)>),
> {
    Seq::new(objects.len(), |i: int| (objects[i].0@, objects[i].1@))
}

/// The values that `objects` encode, each under its name, where each
/// object encodes one.
pub open spec fn decoded_all(
    objects: Seq<(Seq<char>, Seq<(Field, FieldView)>)>,
    modulo: EncodedModulo,
) -> Seq<(Seq<char>, EncryptedValue)> {
    Seq::new(objects.len(), |i: int| (objects[i].0, decoded(objects[i].1, modulo)->Ok_0))
}

/// The interchange forms of `values`, each under its name, where each
/// value has one.
pub open spec fn encoded_all(values: Seq<(Seq<char>, EncryptedValue)>) -> Seq<
    (Seq<char>, Seq<(Field, FieldView)>),
> {
    Seq::new(values.len(), |i: int| (values[i].0, encoded(values[i].1)->Ok_0))
}

impl EncryptedNadaValues {
    /// The interchange form of every value, under its name and in the
    /// order of the entries. The first value without an interchange form
    /// fails the whole conversion.
    pub fn to_js_object(&self) -> (objects: Result<Vec<(String, InterchangeObject)>, EntryError>)
        ensures
            match objects {
                Ok(objects) => {
                    &&& forall|i: int| 0 <= i < self@.len() ==> encoded(self@[i].1).is_ok()
                    &&& objects_view(objects@) == encoded_all(self@)
                },
                Err(failure) => {
                    &&& failure.entry < self@.len()
                    &&& encoded(self@[failure.entry as int].1) == Err::<
                        Seq<(Field, FieldView)>,
                        ValueError,
                    >(failure.error)
                    &&& forall|i: int| 0 <= i < failure.entry ==> encoded(self@[i].1).is_ok()
                },
            },
    {
        let count = self.length();
        let mut objects: Vec<(String, InterchangeObject)> = Vec::new();
        let mut i: usize = 0;
        while i < count
            invariant
                i <= count,
                count == self@.len(),
                objects@.len() == i,
                forall|k: int| 0 <= k < i ==> encoded(self@[k].1).is_ok(),
                forall|k: int|
                    0 <= k < i ==> (#[trigger] objects@[k]).0@ == self@[k].0 && encoded(
                        self@[k].1,
                    ) == Ok::<Seq<(Field, FieldView)>, ValueError>(objects@[k].1@),
            decreases count - i,
        {
            match self.value_at(i).encode() {
                Ok(object) => {
                    objects.push((self.name_at(i).clone(), object));
                },
                Err(error) => {
                    return Err(EntryError { entry: i, error });
                },
            }
            i = i + 1;
        }
        assert(objects_view(objects@) =~= encoded_all(self@));
        Ok(objects)
    }

    /// The values that `js_object` encodes, with numbers in the field of
    /// `modulo`. Each entry is decoded and put under its name, a later one
    /// in the place of an earlier one of the same name. The first entry
    /// that does not decode fails the whole conversion.
    pub fn from_js_object(js_object: &Vec<(String, InterchangeObject)>, modulo: EncodedModulo) -> (values:
        Result<EncryptedNadaValues, EntryError>)
        ensures
            match values {
                Ok(values) => {
                    &&& forall|i: int|
                        0 <= i < js_object@.len() ==> decoded(
                            (#[trigger] js_object@[i]).1@,
                            modulo,
                        ).is_ok()
                    &&& values@ == gathered(decoded_all(objects_view(js_object@), modulo))
                    &&& values.wf()
                    &&& forall|i: int|
                        0 <= i < values@.len() ==> (#[trigger] values@[i]).1.wf()
                            && values@[i].1.is_in_field(modulo)
                            && values@[i].1.variant().is_exchanged()
                },
                Err(failure) => {
                    &&& failure.entry < js_object@.len()
                    &&& decoded(js_object@[failure.entry as int].1@, modulo) == Err::<
                        EncryptedValue,
                        ValueError,
                    >(failure.error)
                    &&& forall|i: int|
                        0 <= i < failure.entry ==> decoded(
                            (#[trigger] js_object@[i]).1@,
                            modulo,
                        ).is_ok()
                },
            },
    {
        let ghost all = objects_view(js_object@);
        let mut values = EncryptedNadaValues::new();
        let mut i: usize = 0;
        assert(decoded_all(all.take(0), modulo) =~= Seq::empty());
        while i < js_object.len()
            invariant
                i <= js_object.len(),
                all == objects_view(js_object@),
                forall|k: int| 0 <= k < i ==> decoded((#[trigger] js_object@[k]).1@, modulo).is_ok(),
                values@ == gathered(decoded_all(all.take(i as int), modulo)),
                values.wf(),
                forall|k: int|
                    0 <= k < values@.len() ==> (#[trigger] values@[k]).1.wf()
                        && values@[k].1.is_in_field(modulo)
                        && values@[k].1.variant().is_exchanged(),
            decreases js_object.len() - i,
        {
            let ghost before = values@;
            match js_object[i].1.decode(modulo) {
                Ok(value) => {
                    proof {
                        let next = decoded_all(all.take(i + 1), modulo);
                        assert(next.drop_last() =~= decoded_all(all.take(i as int), modulo));
                        assert(next.last() == (js_object@[i as int].0@, value@));
                        lemma_with_entry_keeps(
                            before,
                            js_object@[i as int].0@,
                            value@,
                            |v: EncryptedValue|
                                v.wf() && v.is_in_field(modulo) && v.variant().is_exchanged(),
                        );
                    }
                    values.insert(js_object[i].0.clone(), value);
                },
                Err(error) => {
                    return Err(EntryError { entry: i, error });
                },
            }
            i = i + 1;
        }
        assert(all.take(i as int) =~= all);
        Ok(values)
    }
}

/// Putting a value that meets a condition among entries whose values all
/// meet it leaves entries whose values all meet it.
pub proof fn lemma_with_entry_keeps<T>(
    entries: Seq<(Seq<char>, T)>,
    name: Seq<char>,
    value: T,
    holds: spec_fn(T) -> bool,
)
    requires
        forall|i: int| 0 <= i < entries.len() ==> holds((#[trigger] entries[i]).1),
        holds(value),
    ensures
        forall|i: int|
            0 <= i < with_entry(entries, name, value).len() ==> holds(
                (#[trigger] with_entry(entries, name, value)[i]).1,
            ),
{
    let after = with_entry(entries, name, value);
    assert forall|i: int| 0 <= i < after.len() implies holds((#[trigger] after[i]).1) by {
        if has_name(entries, name) {
            if i != place_of(entries, name) {
                assert(after[i] == entries[i]);
            }
        } else {
            if i < entries.len() {
                assert(after[i] == entries[i]);
            }
        }
    }
}

/// The tag of a variant with an interchange form names that variant and
/// no other.
pub proof fn lemma_tag_names_variant(variant: EncryptedType)
    requires
        variant.is_exchanged(),
    ensures
        type_of_tag(variant.tag()) == Some(variant),
{
    reveal_strlit("Integer");
    reveal_strlit("UnsignedInteger");
    reveal_strlit("Boolean");
    reveal_strlit("ShamirShareInteger");
    reveal_strlit("ShamirShareUnsignedInteger");
    reveal_strlit("ShamirShareBoolean");
    reveal_strlit("SecretBlob");
    reveal_strlit("EcdsaPrivateKey");
    reveal_strlit("EcdsaDigestMessage");
    reveal_strlit("EcdsaSignature");
    reveal_strlit("EcdsaPublicKey");
    reveal_strlit("EddsaPrivateKey");
    reveal_strlit("EddsaMessage");
    reveal_strlit("EddsaSignature");
    reveal_strlit("EddsaPublicKey");
    reveal_strlit("StoreId");
    assert("Integer"@.len() == 7);
    assert("UnsignedInteger"@.len() == 15);
    assert("Boolean"@.len() == 7);
    assert("ShamirShareInteger"@.len() == 18);
    assert("ShamirShareUnsignedInteger"@.len() == 26);
    assert("ShamirShareBoolean"@.len() == 18);
    assert("SecretBlob"@.len() == 10);
    assert("EcdsaPrivateKey"@.len() == 15);
    assert("EcdsaDigestMessage"@.len() == 18);
    assert("EcdsaSignature"@.len() == 14);
    assert("EcdsaPublicKey"@.len() == 14);
    assert("EddsaPrivateKey"@.len() == 15);
    assert("EddsaMessage"@.len() == 12);
    assert("EddsaSignature"@.len() == 14);
    assert("EddsaPublicKey"@.len() == 14);
    assert("StoreId"@.len() == 7);
    assert("Integer"@[0] == 'I');
    assert("Boolean"@[0] == 'B');
    assert("StoreId"@[0] == 'S');
    assert("UnsignedInteger"@[0] == 'U');
    assert("UnsignedInteger"@[1] == 'n');
    assert("EcdsaPrivateKey"@[0] == 'E');
    assert("EcdsaPrivateKey"@[1] == 'c');
    assert("EddsaPrivateKey"@[0] == 'E');
    assert("EddsaPrivateKey"@[1] == 'd');
    assert("ShamirShareInteger"@[0] == 'S');
    assert("ShamirShareInteger"@[11] == 'I');
    assert("ShamirShareBoolean"@[0] == 'S');
    assert("ShamirShareBoolean"@[11] == 'B');
    assert("EcdsaDigestMessage"@[0] == 'E');
    assert("EcdsaDigestMessage"@[11] == 'M');
    assert("EcdsaSignature"@[1] == 'c');
    assert("EcdsaSignature"@[5] == 'S');
    assert("EcdsaPublicKey"@[1] == 'c');
    assert("EcdsaPublicKey"@[5] == 'P');
    assert("EddsaSignature"@[1] == 'd');
    assert("EddsaSignature"@[5] == 'S');
    assert("EddsaPublicKey"@[1] == 'd');
    assert("EddsaPublicKey"@[5] == 'P');
}

/// A share of a key that is well formed is read back from its fields.
proof fn lemma_key_share_reads_back(
    share: KeyShareView,
    curve: Curve,
    fields: Seq<(Field, FieldView)>,
)
    requires
        share.wf(curve),
        text_of(fields, Field::I) == Ok::<Seq<char>, ValueError>(decimal(share.i as nat)),
        bytes_of(fields, Field::X) == Ok::<Seq<u8>, ValueError>(share.x),
        bytes_of(fields, Field::SharedPublicKey) == Ok::<Seq<u8>, ValueError>(
            share.shared_public_key,
        ),
        list_of(fields, Field::PublicShares) == Ok::<Seq<Seq<u8>>, ValueError>(
            share.public_shares,
        ),
    ensures
        decoded_key_share(fields, curve) == Ok::<KeyShareView, ValueError>(share),
{
    lemma_written_number_is_read(share.i as nat, 0x1_0000);
    lemma_full_width_is_padded(share.x);
    assert(written_points(curve, share.public_shares) =~= share.public_shares);
}

/// Decoding the interchange form of a value gives the value back: for
/// every value with an interchange form that is well formed and whose
/// numbers are of the field that is decoded in.
pub proof fn lemma_decode_inverts_encode(value: EncryptedValue, modulo: EncodedModulo)
    requires
        value.wf(),
        value.is_in_field(modulo),
        value.variant().is_exchanged(),
    ensures
        encoded(value).is_ok(),
        decoded(encoded(value)->Ok_0, modulo) == Ok::<EncryptedValue, ValueError>(value),
{
    let fields = encoded(value)->Ok_0;
    let variant = value.variant();
    reveal_with_fuel(field_of, 6);
    lemma_tag_names_variant(variant);
    assert(fields[0] == (Field::Type, FieldView::Text(variant.tag())));
    assert(text_of(fields, Field::Type) == Ok::<Seq<char>, ValueError>(variant.tag()));
    assert(fields.drop_first() =~= encoded_fields(value));
    let rest = encoded_fields(value);
    match value {
        EncryptedValue::SecretBlob(blob) => {
            assert(rest.drop_first() =~= seq![
                (Field::OriginalSize, FieldView::Text(decimal(blob.unencoded_size as nat))),
            ]);
            lemma_written_number_is_read(blob.unencoded_size as nat, 0x1_0000_0000_0000_0000);
            assert(rows_as_numbers(numbers_as_rows(blob.value), modulo) =~= blob.value);
        },
        EncryptedValue::EcdsaPrivateKey(share) => {
            lemma_key_share_fields(share, fields);
            lemma_key_share_reads_back(share, Curve::Secp256k1, fields);
        },
        EncryptedValue::EddsaPrivateKey(share) => {
            lemma_key_share_fields(share, fields);
            lemma_key_share_reads_back(share, Curve::Ed25519, fields);
        },
        EncryptedValue::EcdsaSignature(share) => {
            assert(rest.drop_first() =~= seq![(Field::Sigma, FieldView::Bytes(share.sigma))]);
            lemma_full_width_is_padded(share.r);
            lemma_full_width_is_padded(share.sigma);
        },
        EncryptedValue::EddsaSignature(signature) => {
            let bytes = signature.r + signature.z;
            assert(bytes.subrange(0, 32) =~= signature.r);
            assert(bytes.subrange(32, 64) =~= signature.z);
            lemma_full_width_is_padded(signature.z);
        },
        _ => {},
    }
}

/// The fields of a share of a key are found under their names.
proof fn lemma_key_share_fields(share: KeyShareView, fields: Seq<(Field, FieldView)>)
    requires
        fields.len() == 5,
        fields[0].0 == Field::Type,
        fields[1] == (Field::I, FieldView::Text(decimal(share.i as nat))),
        fields[2] == (Field::X, FieldView::Bytes(share.x)),
        fields[3] == (Field::SharedPublicKey, FieldView::Bytes(share.shared_public_key)),
        fields[4] == (Field::PublicShares, FieldView::List(share.public_shares)),
    ensures
        text_of(fields, Field::I) == Ok::<Seq<char>, ValueError>(decimal(share.i as nat)),
        bytes_of(fields, Field::X) == Ok::<Seq<u8>, ValueError>(share.x),
        bytes_of(fields, Field::SharedPublicKey) == Ok::<Seq<u8>, ValueError>(
            share.shared_public_key,
        ),
        list_of(fields, Field::PublicShares) == Ok::<Seq<Seq<u8>>, ValueError>(
            share.public_shares,
        ),
{
    reveal_with_fuel(field_of, 6);
    let f1 = fields.drop_first();
    let f2 = f1.drop_first();
    let f3 = f2.drop_first();
    let f4 = f3.drop_first();
    assert(f1[0] == fields[1]);
    assert(f2[0] == fields[2]);
    assert(f3[0] == fields[3]);
    assert(f4[0] == fields[4]);
}

/// Reading back the interchange forms of a set of named values gives the
/// set back: for values under names that differ, each with an
/// interchange form, well formed, and with numbers of the field that is
/// decoded in.
pub proof fn lemma_from_js_object_inverts_to_js_object(
    values: Seq<(Seq<char>, EncryptedValue)>,
    modulo: EncodedModulo,
)
    requires
        names_distinct(values),
        forall|i: int|
            0 <= i < values.len() ==> (#[trigger] values[i]).1.wf() && values[i].1.is_in_field(
                modulo,
            ) && values[i].1.variant().is_exchanged(),
    ensures
        forall|i: int|
            0 <= i < values.len() ==> decoded(
                (#[trigger] encoded_all(values)[i]).1,
                modulo,
            ).is_ok(),
        gathered(decoded_all(encoded_all(values), modulo)) == values,
{
    assert forall|i: int| 0 <= i < values.len() implies decoded(
        (#[trigger] encoded_all(values)[i]).1,
        modulo,
    ) == Ok::<EncryptedValue, ValueError>(values[i].1) by {
        lemma_decode_inverts_encode(values[i].1, modulo);
    }
    assert(decoded_all(encoded_all(values), modulo) =~= values);
    lemma_gathered_distinct(values);
}

impl EncryptedType {
    /// The names of the fields that follow `type` in the interchange form
    /// of a value of the variant, in order.
    pub open spec fn fields(self) -> Seq<Field> {
        match self {
            EncryptedType::Integer
            | EncryptedType::UnsignedInteger
            | EncryptedType::Boolean
            | EncryptedType::ShamirShareInteger
            | EncryptedType::ShamirShareUnsignedInteger
            | EncryptedType::ShamirShareBoolean => seq![Field::Value],
            EncryptedType::SecretBlob => seq![Field::Shares, Field::OriginalSize],
            EncryptedType::EcdsaPrivateKey | EncryptedType::EddsaPrivateKey => seq![
                Field::I,
                Field::X,
                Field::SharedPublicKey,
                Field::PublicShares,
            ],
            EncryptedType::EcdsaDigestMessage => seq![Field::Digest],
            EncryptedType::EcdsaSignature => seq![Field::R, Field::Sigma],
            EncryptedType::EcdsaPublicKey | EncryptedType::EddsaPublicKey => seq![
                Field::PublicKey,
            ],
            EncryptedType::EddsaMessage => seq![Field::Message],
            EncryptedType::EddsaSignature => seq![Field::Signature],
            EncryptedType::StoreId => seq![Field::StoreId],
            _ => Seq::empty(),
        }
    }

    /// The names of the fields that follow `type` in the interchange form
    /// of a value of the variant, in order; none for a variant without an
    /// interchange form.
    pub fn field_list(&self) -> (fields: Vec<Field>)
        ensures
            fields@ == self.fields(),
    {
        let mut fields: Vec<Field> = Vec::new();
        match self {
            EncryptedType::Integer
            | EncryptedType::UnsignedInteger
            | EncryptedType::Boolean
            | EncryptedType::ShamirShareInteger
            | EncryptedType::ShamirShareUnsignedInteger
            | EncryptedType::ShamirShareBoolean => {
                fields.push(Field::Value);
            },
            EncryptedType::SecretBlob => {
                fields.push(Field::Shares);
                fields.push(Field::OriginalSize);
            },
            EncryptedType::EcdsaPrivateKey | EncryptedType::EddsaPrivateKey => {
                fields.push(Field::I);
                fields.push(Field::X);
                fields.push(Field::SharedPublicKey);
                fields.push(Field::PublicShares);
            },
            EncryptedType::EcdsaDigestMessage => {
                fields.push(Field::Digest);
            },
            EncryptedType::EcdsaSignature => {
                fields.push(Field::R);
                fields.push(Field::Sigma);
            },
            EncryptedType::EcdsaPublicKey | EncryptedType::EddsaPublicKey => {
                fields.push(Field::PublicKey);
            },
            EncryptedType::EddsaMessage => {
                fields.push(Field::Message);
            },
            EncryptedType::EddsaSignature => {
                fields.push(Field::Signature);
            },
            EncryptedType::StoreId => {
                fields.push(Field::StoreId);
            },
            _ => {},
        }
        assert(fields@ =~= self.fields());
        fields
    }
}

/// The fields of the interchange form of a value are those of its
/// variant, in the same order.
pub proof fn lemma_fields_of_the_variant(value: EncryptedValue)
    ensures
        encoded_fields(value).len() == value.variant().fields().len(),
        forall|i: int|
            0 <= i < encoded_fields(value).len() ==> (#[trigger] encoded_fields(value)[i]).0
                == value.variant().fields()[i],
{
}

} // verus!
