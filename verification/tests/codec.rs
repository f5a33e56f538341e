use generic_ec::curves::{Ed25519, Secp256k1};
use generic_ec::{Curve, Point, Scalar};
use nada_values::codec::{FieldValue, InterchangeObject};
use nada_values::encrypted::{
    BlobShares, EcdsaSignatureShare, EncodedModularNumber, EncodedModulo, EncryptedNadaValue,
    EncryptedNadaValues, EncryptedType, KeyShare, Structure,
};
use nada_values::errors::{EntryError, Field, Representation, ValueError};
use nada_values::values::EddsaSignature;

const MODULO: EncodedModulo = EncodedModulo::U64SafePrime;

fn number(bytes: &[u8]) -> EncodedModularNumber {
    EncodedModularNumber::new_unchecked(bytes.to_vec(), MODULO)
}

fn text(field: Field, value: &str) -> (Field, FieldValue) {
    (field, FieldValue::Text(value.to_string()))
}

fn bytes(field: Field, value: &[u8]) -> (Field, FieldValue) {
    (field, FieldValue::Bytes(value.to_vec()))
}

fn object(fields: Vec<(Field, FieldValue)>) -> InterchangeObject {
    InterchangeObject { fields }
}

fn points<E: Curve>() -> (Vec<Scalar<E>>, Vec<Point<E>>, Point<E>) {
    let secrets = vec![Scalar::<E>::from(7u64), Scalar::<E>::from(11u64), Scalar::<E>::from(13u64)];
    let shares: Vec<Point<E>> = secrets.iter().map(|x| Point::generator() * x).collect();
    let shared = shares[0] + shares[1] + shares[2];
    (secrets, shares, shared)
}

fn key_share<E: Curve>(i: u16) -> KeyShare {
    let (secrets, shares, shared) = points::<E>();
    KeyShare {
        i,
        x: secrets[i as usize].to_le_bytes().to_vec(),
        shared_public_key: shared.to_bytes(true).to_vec(),
        public_shares: shares.iter().map(|p| p.to_bytes(true).to_vec()).collect(),
    }
}

fn key_share_object(tag: &str, share: &KeyShare) -> Vec<(Field, FieldValue)> {
    vec![
        text(Field::Type, tag),
        text(Field::I, &share.i.to_string()),
        bytes(Field::X, &share.x),
        bytes(Field::SharedPublicKey, &share.shared_public_key),
        (Field::PublicShares, FieldValue::List(share.public_shares.clone())),
    ]
}

fn eddsa_signature() -> EddsaSignature {
    EddsaSignature::new(
        vec![
            228, 118, 63, 53, 138, 161, 20, 164, 93, 86, 233, 11, 211, 204, 186, 63, 255, 174,
            220, 173, 222, 58, 64, 79, 108, 173, 130, 1, 134, 44, 244, 104,
        ],
        vec![
            137, 73, 233, 168, 34, 64, 148, 185, 177, 91, 184, 21, 246, 82, 65, 207, 83, 158, 44,
            181, 199, 94, 83, 178, 88, 238, 210, 220, 10, 49, 154, 1,
        ],
    )
}

fn exchanged_values() -> Vec<(&'static str, EncryptedNadaValue)> {
    vec![
        ("Integer", EncryptedNadaValue::Integer(number(&[1, 0, 0, 0, 0, 0, 0, 0]))),
        ("UnsignedInteger", EncryptedNadaValue::UnsignedInteger(number(&[2; 8]))),
        ("Boolean", EncryptedNadaValue::Boolean(number(&[1]))),
        ("ShamirShareInteger", EncryptedNadaValue::ShamirShareInteger(number(&[3; 8]))),
        (
            "ShamirShareUnsignedInteger",
            EncryptedNadaValue::ShamirShareUnsignedInteger(number(&[4; 8])),
        ),
        ("ShamirShareBoolean", EncryptedNadaValue::ShamirShareBoolean(number(&[]))),
        (
            "SecretBlob",
            EncryptedNadaValue::SecretBlob(BlobShares {
                value: vec![number(&[5; 8]), number(&[6; 8])],
                unencoded_size: 11,
            }),
        ),
        ("EcdsaPrivateKey", EncryptedNadaValue::EcdsaPrivateKey(key_share::<Secp256k1>(1))),
        ("EcdsaDigestMessage", EncryptedNadaValue::EcdsaDigestMessage(vec![1; 32])),
        (
            "EcdsaSignature",
            EncryptedNadaValue::EcdsaSignature(EcdsaSignatureShare {
                r: vec![1; 32],
                sigma: vec![0; 32],
            }),
        ),
        ("EcdsaPublicKey", EncryptedNadaValue::EcdsaPublicKey(vec![1; 33])),
        ("EddsaPrivateKey", EncryptedNadaValue::EddsaPrivateKey(key_share::<Ed25519>(2))),
        ("EddsaMessage", EncryptedNadaValue::EddsaMessage(vec![1, 2, 3, 4, 5])),
        ("EddsaSignature", EncryptedNadaValue::EddsaSignature(eddsa_signature())),
        ("EddsaPublicKey", EncryptedNadaValue::EddsaPublicKey(vec![1; 32])),
        ("StoreId", EncryptedNadaValue::StoreId(vec![1; 16])),
    ]
}

#[test]
fn decoding_inverts_encoding_for_every_variant() {
    for (tag, value) in exchanged_values() {
        let encoded = value.encode().unwrap();
        assert_eq!(encoded.fields[0], text(Field::Type, tag));
        assert_eq!(encoded.decode(MODULO), Ok(value.clone()), "{}", tag);
        assert_eq!(value.duplicate(), value);
        assert_eq!(value.to_type().name(), tag);
        assert_eq!(EncryptedType::from_name(tag), Some(value.to_type()));
    }
}

#[test]
fn numbers_are_decoded_in_the_field_asked_for() {
    let encoded = EncryptedNadaValue::Integer(number(&[9; 8])).encode().unwrap();
    assert_eq!(encoded.fields, vec![text(Field::Type, "Integer"), bytes(Field::Value, &[9; 8])]);
    let decoded = encoded.decode(EncodedModulo::U256SafePrime).unwrap();
    assert_eq!(
        decoded,
        EncryptedNadaValue::Integer(EncodedModularNumber::new_unchecked(
            vec![9; 8],
            EncodedModulo::U256SafePrime
        ))
    );
    match decoded {
        EncryptedNadaValue::Integer(n) => {
            assert_eq!(n.modulo(), EncodedModulo::U256SafePrime);
            assert_eq!(n.as_bytes(), &vec![9; 8]);
        }
        _ => panic!("not an integer"),
    }
}

#[test]
fn a_blob_is_written_as_chunks_and_size() {
    let blob = EncryptedNadaValue::SecretBlob(BlobShares {
        value: vec![number(&[5; 8]), number(&[6; 8])],
        unencoded_size: 18446744073709551615,
    });
    assert_eq!(
        blob.encode().unwrap().fields,
        vec![
            text(Field::Type, "SecretBlob"),
            (Field::Shares, FieldValue::List(vec![vec![5; 8], vec![6; 8]])),
            text(Field::OriginalSize, "18446744073709551615"),
        ]
    );
    let read = |size: &str| {
        object(vec![
            text(Field::Type, "SecretBlob"),
            (Field::Shares, FieldValue::List(vec![vec![7]])),
            text(Field::OriginalSize, size),
        ])
        .decode(MODULO)
    };
    let with_size = |unencoded_size| {
        Ok(EncryptedNadaValue::SecretBlob(BlobShares { value: vec![number(&[7])], unencoded_size }))
    };
    assert_eq!(read("+7"), with_size(7));
    assert_eq!(read("007"), with_size(7));
    assert_eq!(read("18446744073709551615"), with_size(u64::MAX));
    for refused in ["", "+", "-1", "1_0", "abc", "18446744073709551616", " 1", "++1"] {
        assert_eq!(
            read(refused),
            Err(ValueError::ValueParse { field: Field::OriginalSize }),
            "{:?}",
            refused
        );
    }
}

#[test]
fn a_key_share_is_written_as_four_fields() {
    let share = key_share::<Secp256k1>(0);
    let encoded = EncryptedNadaValue::EcdsaPrivateKey(share.clone()).encode().unwrap();
    assert_eq!(encoded.fields, key_share_object("EcdsaPrivateKey", &share));
    assert_eq!(encoded.fields[1], text(Field::I, "0"));
    assert_eq!(share.x, [vec![7], vec![0; 31]].concat());
    assert_eq!(share.shared_public_key.len(), 33);

    let share = key_share::<Ed25519>(2);
    let encoded = share.encode(EncryptedType::EddsaPrivateKey);
    assert_eq!(encoded.fields, key_share_object("EddsaPrivateKey", &share));
    assert_eq!(encoded.fields[1], text(Field::I, "2"));
    assert_eq!(share.x, [vec![13], vec![0; 31]].concat());
    assert_eq!(share.public_shares[0].len(), 32);
}

#[test]
fn points_are_kept_in_their_compressed_form() {
    let share = key_share::<Secp256k1>(1);
    let (_, shares, shared) = points::<Secp256k1>();
    let mut fields = key_share_object("EcdsaPrivateKey", &share);
    fields[1] = text(Field::I, "+01");
    fields[2] = bytes(Field::X, &[11]);
    fields[3] = bytes(Field::SharedPublicKey, &shared.to_bytes(false));
    fields[4] = (
        Field::PublicShares,
        FieldValue::List(shares.iter().map(|p| p.to_bytes(false).to_vec()).collect()),
    );
    assert_eq!(shared.to_bytes(false).len(), 65);
    assert_eq!(object(fields).decode(MODULO), Ok(EncryptedNadaValue::EcdsaPrivateKey(share)));
}

#[test]
fn a_key_share_is_checked_part_by_part() {
    let share = key_share::<Secp256k1>(1);
    let decode = |change: &dyn Fn(&mut Vec<(Field, FieldValue)>)| {
        let mut fields = key_share_object("EcdsaPrivateKey", &share);
        change(&mut fields);
        object(fields).decode(MODULO)
    };
    let invalid = |field| Err(ValueError::ScalarOrPointInvalid { field });
    let unread = |field| Err(ValueError::ValueParse { field });

    assert_eq!(decode(&|_| {}), Ok(EncryptedNadaValue::EcdsaPrivateKey(share.clone())));
    assert_eq!(decode(&|f| f[1] = text(Field::I, "65536")), unread(Field::I));
    assert_eq!(decode(&|f| f[1] = text(Field::I, "-1")), unread(Field::I));
    assert_eq!(decode(&|f| f[1] = bytes(Field::I, &[1])), unread(Field::I));
    assert_eq!(decode(&|f| { f.remove(1); }), unread(Field::I));
    assert_eq!(decode(&|f| f[2] = bytes(Field::X, &[0; 32])), invalid(Field::X));
    assert_eq!(decode(&|f| f[2] = bytes(Field::X, &[])), invalid(Field::X));
    assert_eq!(decode(&|f| f[2] = bytes(Field::X, &[255; 32])), invalid(Field::X));
    assert_eq!(decode(&|f| f[2] = bytes(Field::X, &[1; 33])), invalid(Field::X));
    assert_eq!(decode(&|f| f[2] = text(Field::X, "11")), unread(Field::X));
    assert_eq!(
        decode(&|f| f[3] = bytes(Field::SharedPublicKey, &[0; 33])),
        invalid(Field::SharedPublicKey)
    );
    assert_eq!(
        decode(&|f| f[3] = bytes(Field::SharedPublicKey, &[2; 32])),
        invalid(Field::SharedPublicKey)
    );
    assert_eq!(decode(&|f| { f.remove(3); }), unread(Field::SharedPublicKey));
    assert_eq!(
        decode(&|f| f[4] = (Field::PublicShares, FieldValue::List(vec![vec![5; 33]]))),
        invalid(Field::PublicShares)
    );
    assert_eq!(decode(&|f| f[4] = bytes(Field::PublicShares, &[])), unread(Field::PublicShares));
    // parts that do not fit together: another holder's secret, an index
    // without a point, one holder alone, a key that is not the sum
    assert_eq!(decode(&|f| f[2] = bytes(Field::X, &[7])), invalid(Field::PublicShares));
    assert_eq!(decode(&|f| f[1] = text(Field::I, "3")), invalid(Field::PublicShares));
    assert_eq!(
        decode(&|f| f[4] = (Field::PublicShares, FieldValue::List(vec![]))),
        invalid(Field::PublicShares)
    );
    let other_key = share.public_shares[0].clone();
    assert_eq!(
        decode(&|f| f[3] = bytes(Field::SharedPublicKey, &other_key)),
        invalid(Field::PublicShares)
    );
    // a share of the other curve
    let other_curve = key_share::<Ed25519>(1);
    assert_eq!(
        object(key_share_object("EcdsaPrivateKey", &other_curve)).decode(MODULO),
        invalid(Field::SharedPublicKey)
    );
}

#[test]
fn signature_shares_are_read_least_significant_byte_first() {
    let read = |r: &[u8], sigma: &[u8]| {
        object(vec![
            text(Field::Type, "EcdsaSignature"),
            bytes(Field::R, r),
            bytes(Field::Sigma, sigma),
        ])
        .decode(MODULO)
    };
    assert_eq!(
        read(&[1, 2], &[]),
        Ok(EncryptedNadaValue::EcdsaSignature(EcdsaSignatureShare {
            r: [vec![1, 2], vec![0; 30]].concat(),
            sigma: vec![0; 32],
        }))
    );
    // the order of the group, with the least significant byte first and
    // then lowered by one
    let mut order: Vec<u8> = vec![
        0xFF, 0xFF, 0xFF, 0xFF, 0xFF, 0xFF, 0xFF, 0xFF, 0xFF, 0xFF, 0xFF, 0xFF, 0xFF, 0xFF, 0xFF,
        0xFE, 0xBA, 0xAE, 0xDC, 0xE6, 0xAF, 0x48, 0xA0, 0x3B, 0xBF, 0xD2, 0x5E, 0x8C, 0xD0, 0x36,
        0x41, 0x41,
    ];
    order.reverse();
    assert_eq!(read(&order, &[1]), Err(ValueError::ScalarOrPointInvalid { field: Field::R }));
    assert_eq!(read(&[1], &order), Err(ValueError::ScalarOrPointInvalid { field: Field::Sigma }));
    order[0] = 0x40;
    assert!(read(&order, &order).is_ok());
    assert_eq!(read(&[1; 33], &[1]), Err(ValueError::ScalarOrPointInvalid { field: Field::R }));
}

#[test]
fn an_eddsa_signature_is_written_in_one_piece() {
    let signature = eddsa_signature();
    let encoded = EncryptedNadaValue::EddsaSignature(signature.clone()).encode().unwrap();
    assert_eq!(
        encoded.fields,
        vec![
            text(Field::Type, "EddsaSignature"),
            bytes(Field::Signature, &[signature.r(), signature.z()].concat()),
        ]
    );
    let read = |whole: &[u8]| {
        object(vec![text(Field::Type, "EddsaSignature"), bytes(Field::Signature, whole)])
            .decode(MODULO)
    };
    assert_eq!(
        read(&[1; 63]),
        Err(ValueError::LengthMismatch { field: Field::Signature, expected: 64, actual: 63 })
    );
    assert_eq!(
        read(&[signature.z(), signature.r()].concat()),
        Err(ValueError::ScalarOrPointInvalid { field: Field::R })
    );
    assert_eq!(
        read(&[signature.r(), vec![255; 32]].concat()),
        Err(ValueError::ScalarOrPointInvalid { field: Field::Z })
    );
}

#[test]
fn fixed_widths_are_checked_on_decoding() {
    let read = |tag: &str, field: Field, width: usize| {
        object(vec![text(Field::Type, tag), bytes(field, &vec![1; width])]).decode(MODULO)
    };
    let wrong = |field, expected, actual| Err(ValueError::LengthMismatch { field, expected, actual });
    assert_eq!(read("EcdsaDigestMessage", Field::Digest, 31), wrong(Field::Digest, 32, 31));
    assert_eq!(read("EcdsaDigestMessage", Field::Digest, 33), wrong(Field::Digest, 32, 33));
    assert_eq!(read("EcdsaPublicKey", Field::PublicKey, 32), wrong(Field::PublicKey, 33, 32));
    assert_eq!(read("EddsaPublicKey", Field::PublicKey, 33), wrong(Field::PublicKey, 32, 33));
    assert_eq!(read("StoreId", Field::StoreId, 0), wrong(Field::StoreId, 16, 0));
    assert_eq!(
        read("StoreId", Field::StoreId, 16),
        Ok(EncryptedNadaValue::StoreId(vec![1; 16]))
    );
    assert_eq!(
        read("EddsaMessage", Field::Message, 0),
        Ok(EncryptedNadaValue::EddsaMessage(vec![]))
    );
}

#[test]
fn the_tag_decides_what_is_read() {
    let unread = |field| Err(ValueError::ValueParse { field });
    assert_eq!(object(vec![]).decode(MODULO), unread(Field::Type));
    assert_eq!(object(vec![bytes(Field::Value, &[1])]).decode(MODULO), unread(Field::Type));
    assert_eq!(
        object(vec![bytes(Field::Type, b"Integer"), bytes(Field::Value, &[1])]).decode(MODULO),
        unread(Field::Type)
    );
    for tag in ["", "integer", "Integer ", "SecretInteger", "SecretBoolean", "Array", "Object", "PublicInteger"] {
        assert_eq!(
            object(vec![text(Field::Type, tag), bytes(Field::Value, &[1])]).decode(MODULO),
            unread(Field::Type),
            "{:?}",
            tag
        );
    }
    assert_eq!(object(vec![text(Field::Type, "Integer")]).decode(MODULO), unread(Field::Value));
    assert_eq!(
        object(vec![text(Field::Type, "Integer"), bytes(Field::Digest, &[1])]).decode(MODULO),
        unread(Field::Value)
    );
    assert_eq!(
        object(vec![text(Field::Type, "EcdsaDigestMessage"), bytes(Field::Value, &[1; 32])])
            .decode(MODULO),
        unread(Field::Digest)
    );
    assert_eq!(
        object(vec![text(Field::Type, "SecretBlob"), text(Field::OriginalSize, "1")]).decode(MODULO),
        unread(Field::Shares)
    );
    // the first of two fields of one name counts, others are passed over
    let twice = object(vec![
        bytes(Field::Message, &[9]),
        text(Field::Type, "Boolean"),
        bytes(Field::Value, &[1]),
        text(Field::Type, "Integer"),
        bytes(Field::Value, &[2]),
    ]);
    assert_eq!(twice.decode(MODULO), Ok(EncryptedNadaValue::Boolean(number(&[1]))));
    assert_eq!(twice.get(Field::Value), Some(&FieldValue::Bytes(vec![1])));
    assert_eq!(twice.get(Field::Digest), None);
}

#[test]
fn values_without_an_interchange_form_are_refused() {
    let refused = Err(ValueError::UnsupportedConversion { wanted: Representation::Interchange });
    let values = [
        ("SecretInteger", EncryptedNadaValue::SecretInteger(number(&[1]))),
        ("SecretUnsignedInteger", EncryptedNadaValue::SecretUnsignedInteger(number(&[1]))),
        ("SecretBoolean", EncryptedNadaValue::SecretBoolean(number(&[1]))),
        ("Array", EncryptedNadaValue::Nested(Structure::Array)),
        ("Tuple", EncryptedNadaValue::Nested(Structure::Tuple)),
        ("NTuple", EncryptedNadaValue::Nested(Structure::NTuple)),
        ("Object", EncryptedNadaValue::Nested(Structure::Object)),
    ];
    for (tag, value) in values {
        assert_eq!(value.encode(), refused);
        assert_eq!(value.to_type().name(), tag);
        assert_eq!(EncryptedType::from_name(tag), None);
    }
}

#[test]
fn a_set_of_values_is_read_back_from_its_interchange_form() {
    let mut values = EncryptedNadaValues::new();
    for (tag, value) in exchanged_values() {
        values.insert(tag.to_lowercase(), value);
    }
    assert_eq!(values.length(), 16);
    let objects = values.to_js_object().unwrap();
    assert_eq!(objects.len(), 16);
    assert_eq!(objects[6].0, "secretblob");
    assert_eq!(EncryptedNadaValues::from_js_object(&objects, MODULO), Ok(values.duplicate()));
    assert_eq!(values.duplicate(), values);
    assert_eq!(
        EncryptedNadaValues::from_js_object(&vec![], MODULO),
        Ok(EncryptedNadaValues::new())
    );
}

#[test]
fn the_first_entry_that_fails_is_named() {
    let mut values = EncryptedNadaValues::new();
    values.insert("a".to_string(), EncryptedNadaValue::StoreId(vec![1; 16]));
    values.insert("b".to_string(), EncryptedNadaValue::SecretBoolean(number(&[1])));
    values.insert("c".to_string(), EncryptedNadaValue::Nested(Structure::Array));
    assert_eq!(
        values.to_js_object(),
        Err(EntryError {
            entry: 1,
            error: ValueError::UnsupportedConversion { wanted: Representation::Interchange },
        })
    );
    let objects = vec![
        ("a".to_string(), object(vec![text(Field::Type, "StoreId"), bytes(Field::StoreId, &[1; 16])])),
        ("b".to_string(), object(vec![text(Field::Type, "Boolean"), bytes(Field::Value, &[1])])),
        ("c".to_string(), object(vec![text(Field::Type, "StoreId"), bytes(Field::StoreId, &[1; 17])])),
        ("d".to_string(), object(vec![])),
    ];
    assert_eq!(
        EncryptedNadaValues::from_js_object(&objects, MODULO),
        Err(EntryError {
            entry: 2,
            error: ValueError::LengthMismatch { field: Field::StoreId, expected: 16, actual: 17 },
        })
    );
}

#[test]
fn of_two_entries_of_one_name_the_later_stays() {
    let boolean = |bit: u8| object(vec![text(Field::Type, "Boolean"), bytes(Field::Value, &[bit])]);
    let objects = vec![
        ("a".to_string(), boolean(0)),
        ("b".to_string(), boolean(1)),
        ("a".to_string(), boolean(2)),
    ];
    let values = EncryptedNadaValues::from_js_object(&objects, MODULO).unwrap();
    assert_eq!(values.length(), 2);
    assert_eq!(values.name_at(0), "a");
    assert_eq!(values.value_at(0), &EncryptedNadaValue::Boolean(number(&[2])));
    assert_eq!(values.get(&"b".to_string()), Some(&EncryptedNadaValue::Boolean(number(&[1]))));
    assert_eq!(values.position(&"b".to_string()), Some(1));
    assert_eq!(values.position(&"c".to_string()), None);
}

#[test]
fn fields_are_spelled_as_the_interchange_objects_spell_them() {
    let names = [
        (Field::Type, "type"),
        (Field::Value, "value"),
        (Field::Shares, "shares"),
        (Field::OriginalSize, "originalSize"),
        (Field::I, "i"),
        (Field::X, "x"),
        (Field::SharedPublicKey, "sharedPublicKey"),
        (Field::PublicShares, "publicShares"),
        (Field::Digest, "digest"),
        (Field::R, "r"),
        (Field::S, "s"),
        (Field::Sigma, "sigma"),
        (Field::Z, "z"),
        (Field::PublicKey, "publicKey"),
        (Field::Message, "message"),
        (Field::Signature, "signature"),
        (Field::StoreId, "storeId"),
    ];
    for (field, name) in names {
        assert_eq!(field.name(), name);
    }
}

#[test]
fn every_variant_names_the_fields_of_its_interchange_form() {
    for (_, value) in exchanged_values() {
        let encoded = value.encode().unwrap();
        let names: Vec<Field> = encoded.fields.iter().skip(1).map(|field| field.0).collect();
        assert_eq!(value.to_type().field_list(), names);
    }
    assert_eq!(EncryptedType::SecretBoolean.field_list(), vec![]);
    assert_eq!(EncryptedType::Object.field_list(), vec![]);
    assert_eq!(
        EncryptedType::EddsaPrivateKey.field_list(),
        vec![Field::I, Field::X, Field::SharedPublicKey, Field::PublicShares]
    );
}

#[test]
fn the_field_of_every_number_is_checked() {
    let other = EncodedModularNumber::new_unchecked(vec![1], EncodedModulo::U256SafePrime);
    assert!(EncryptedNadaValue::Boolean(number(&[1])).in_field(MODULO));
    assert!(!EncryptedNadaValue::Boolean(other.clone()).in_field(MODULO));
    assert!(EncryptedNadaValue::Boolean(other.clone()).in_field(EncodedModulo::U256SafePrime));
    assert!(!EncryptedNadaValue::SecretInteger(number(&[1])).in_field(EncodedModulo::U128SafePrime));
    let blob = |value| EncryptedNadaValue::SecretBlob(BlobShares { value, unencoded_size: 0 });
    assert!(blob(vec![]).in_field(MODULO));
    assert!(blob(vec![number(&[1]), number(&[2])]).in_field(MODULO));
    assert!(!blob(vec![number(&[1]), other]).in_field(MODULO));
    assert!(EncryptedNadaValue::StoreId(vec![1; 16]).in_field(MODULO));
    assert!(EncryptedNadaValue::Nested(Structure::Tuple).in_field(MODULO));
    for (_, value) in exchanged_values() {
        assert!(value.in_field(MODULO));
    }
}

#[test]
fn encrypted_values_are_compared_by_variant_and_content() {
    let values = exchanged_values();
    for (i, (_, left)) in values.iter().enumerate() {
        for (k, (_, right)) in values.iter().enumerate() {
            assert_eq!(left.same_as(right), i == k);
        }
    }
    let share = key_share::<Secp256k1>(1);
    let with = |change: &dyn Fn(&mut KeyShare)| {
        let mut other = share.duplicate();
        change(&mut other);
        share.same_as(&other)
    };
    assert!(with(&|_| {}));
    assert!(!with(&|s| s.i = 2));
    assert!(!with(&|s| s.x[0] ^= 1));
    assert!(!with(&|s| s.shared_public_key[1] ^= 1));
    assert!(!with(&|s| s.public_shares[2][7] ^= 1));
    assert!(!with(&|s| { s.public_shares.pop(); }));
    let blob = |value, unencoded_size| BlobShares { value, unencoded_size };
    assert!(blob(vec![number(&[1])], 1).same_as(&blob(vec![number(&[1])], 1)));
    assert!(!blob(vec![number(&[1])], 1).same_as(&blob(vec![number(&[1])], 2)));
    assert!(!blob(vec![number(&[1])], 1).same_as(&blob(vec![number(&[2])], 1)));
    assert!(!blob(vec![number(&[1])], 1).same_as(&blob(vec![], 1)));
    assert!(EncryptedNadaValue::Nested(Structure::Array).same_as(&EncryptedNadaValue::Nested(Structure::Array)));
    assert!(!EncryptedNadaValue::Nested(Structure::Array).same_as(&EncryptedNadaValue::Nested(Structure::NTuple)));
}

#[test]
fn sets_of_encrypted_values_are_compared_whatever_the_order() {
    let mut left = EncryptedNadaValues::new();
    let mut right = EncryptedNadaValues::new();
    for (tag, value) in exchanged_values() {
        left.insert(tag.to_string(), value);
    }
    for (tag, value) in exchanged_values().into_iter().rev() {
        assert!(!left.same_as(&right));
        right.insert(tag.to_string(), value);
    }
    assert!(left.same_as(&right));
    assert!(right.same_as(&left));
    assert_ne!(left, right);
    right.insert("StoreId".to_string(), EncryptedNadaValue::StoreId(vec![2; 16]));
    assert!(!left.same_as(&right));
}

#[test]
fn what_is_decoded_is_well_formed() {
    let mut values = EncryptedNadaValues::new();
    for (tag, value) in exchanged_values() {
        assert!(value.is_well_formed(), "{}", tag);
        values.insert(tag.to_string(), value);
    }
    assert!(values.is_well_formed(MODULO));
    assert!(!values.is_well_formed(EncodedModulo::U128SafePrime));
    values.insert("short".to_string(), EncryptedNadaValue::EcdsaDigestMessage(vec![1; 3]));
    assert!(!values.is_well_formed(MODULO));
    assert!(EncryptedNadaValues::new().is_well_formed(MODULO));
}

#[test]
fn a_value_that_is_not_well_formed_is_not_read_back() {
    let short = EncryptedNadaValue::EcdsaDigestMessage(vec![1; 3]);
    assert!(!short.is_well_formed());
    assert_eq!(
        short.encode().unwrap().decode(MODULO),
        Err(ValueError::LengthMismatch { field: Field::Digest, expected: 32, actual: 3 })
    );
    let ill_formed = [
        EncryptedNadaValue::EcdsaPublicKey(vec![1; 32]),
        EncryptedNadaValue::EddsaPublicKey(vec![1; 33]),
        EncryptedNadaValue::StoreId(vec![]),
        EncryptedNadaValue::EcdsaSignature(EcdsaSignatureShare { r: vec![1], sigma: vec![1; 32] }),
        EncryptedNadaValue::EcdsaSignature(EcdsaSignatureShare {
            r: vec![1; 32],
            sigma: vec![255; 32],
        }),
        EncryptedNadaValue::EddsaSignature(EddsaSignature::new(vec![1; 32], vec![255; 32])),
        EncryptedNadaValue::EddsaSignature(EddsaSignature::new(
            [vec![1], vec![0; 31]].concat(),
            vec![1; 32],
        )),
        EncryptedNadaValue::EddsaSignature(EddsaSignature::new(eddsa_signature().r(), vec![1])),
    ];
    for value in ill_formed {
        assert!(!value.is_well_formed(), "{:?}", value);
        assert_ne!(value.encode().unwrap().decode(MODULO), Ok(value));
    }
    // numbers and messages are taken as they are
    assert!(EncryptedNadaValue::Integer(number(&[])).is_well_formed());
    assert!(EncryptedNadaValue::EddsaMessage(vec![]).is_well_formed());
    assert!(EncryptedNadaValue::SecretBoolean(number(&[1])).is_well_formed());
    assert!(EncryptedNadaValue::Nested(Structure::Object).is_well_formed());
}

#[test]
fn a_key_share_is_well_formed_where_its_parts_fit() {
    let share = key_share::<Secp256k1>(1);
    assert!(share.is_well_formed(nada_values::curves::Curve::Secp256k1));
    assert!(!share.is_well_formed(nada_values::curves::Curve::Ed25519));
    let with = |change: &dyn Fn(&mut KeyShare)| {
        let mut other = share.duplicate();
        change(&mut other);
        EncryptedNadaValue::EcdsaPrivateKey(other).is_well_formed()
    };
    assert!(with(&|_| {}));
    assert!(!with(&|s| s.i = 0));
    assert!(!with(&|s| s.i = 3));
    assert!(!with(&|s| s.x = vec![11]));
    assert!(!with(&|s| s.x = vec![0; 32]));
    assert!(!with(&|s| s.x = vec![255; 32]));
    assert!(!with(&|s| s.shared_public_key = vec![0; 33]));
    assert!(!with(&|s| s.shared_public_key = s.public_shares[0].clone()));
    assert!(!with(&|s| { s.public_shares.pop(); }));
    assert!(!with(&|s| s.public_shares[0] = vec![]));
    let (_, _, shared) = points::<Secp256k1>();
    // a point that is not written in its compressed form
    assert!(!with(&|s| s.shared_public_key = shared.to_bytes(false).to_vec()));
    assert!(EncryptedNadaValue::EddsaPrivateKey(key_share::<Ed25519>(0)).is_well_formed());
    assert!(!EncryptedNadaValue::EcdsaPrivateKey(key_share::<Ed25519>(0)).is_well_formed());
}
