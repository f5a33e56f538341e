use nada_values::errors::{Field, Representation, ValueError};
use nada_values::values::{ClearType, EcdsaSignature, EddsaSignature, Record, RecordValue};
use nada_values::{NadaValue, NadaValues};

fn eddsa_r() -> Vec<u8> {
    vec![
        228, 118, 63, 53, 138, 161, 20, 164, 93, 86, 233, 11, 211, 204, 186, 63, 255, 174, 220,
        173, 222, 58, 64, 79, 108, 173, 130, 1, 134, 44, 244, 104,
    ]
}

fn eddsa_z() -> Vec<u8> {
    vec![
        137, 73, 233, 168, 34, 64, 148, 185, 177, 91, 184, 21, 246, 82, 65, 207, 83, 158, 44, 181,
        199, 94, 83, 178, 88, 238, 210, 220, 10, 49, 154, 1,
    ]
}

#[test]
fn secret_integer() {
    let secret = NadaValue::new_secret_integer("-42").unwrap();
    assert_eq!(secret.to_integer(), Ok("-42".to_string()));
}

#[test]
fn secret_unsigned_integer() {
    let secret = NadaValue::new_secret_unsigned_integer("42").unwrap();
    assert_eq!(secret.to_integer(), Ok("42".to_string()));
}

#[test]
fn secret_boolean() {
    let secret = NadaValue::new_secret_boolean(true).unwrap();
    assert_eq!(secret.to_integer(), Ok("true".to_string()));
}

#[test]
fn secret_blob() {
    let contents = b"hi mom".to_vec();
    let secret = NadaValue::new_secret_blob(contents.clone());
    assert_eq!(secret.to_byte_array(), Ok(contents));
}

#[test]
fn new_secrets() {
    let secrets = NadaValues::new();
    assert_eq!(secrets.unwrap().length(), 0);
}

#[test]
fn insert_secret() {
    let mut secrets = NadaValues::new().unwrap();
    let secret = NadaValue::new_secret_integer("42").unwrap();
    secrets.insert("my_secret".to_string(), &secret);
    assert_eq!(secrets.length(), 1);
}

#[test]
fn integer() {
    let variable = NadaValue::new_public_integer("-42").unwrap();
    assert_eq!(variable.to_integer(), Ok("-42".to_string()));
}

#[test]
fn unsigned_integer() {
    let variable = NadaValue::new_public_unsigned_integer("42").unwrap();
    assert_eq!(variable.to_integer(), Ok("42".to_string()));
}

#[test]
fn boolean() {
    let variable = NadaValue::new_public_boolean(false).unwrap();
    assert_eq!(variable.to_integer(), Ok("false".to_string()));
}

#[test]
fn integer_text_is_written_in_its_shortest_form() {
    let text = |input: &str| NadaValue::new_public_integer(input).and_then(|v| v.to_integer());
    assert_eq!(text("+5"), Ok("5".to_string()));
    assert_eq!(text("-0"), Ok("0".to_string()));
    assert_eq!(text("0007"), Ok("7".to_string()));
    assert_eq!(text("1_000_"), Ok("1000".to_string()));
    assert_eq!(text("-1_0"), Ok("-10".to_string()));
    assert_eq!(
        text("-340282366920938463463374607431768211456000"),
        Ok("-340282366920938463463374607431768211456000".to_string())
    );
}

#[test]
fn malformed_integer_text_is_refused() {
    let refused = Err(ValueError::ValueParse { field: Field::Value });
    for input in ["", "+", "-", "_1", "+_1", "-_1", "++1", "-+1", "+-1", "--1", "12a", " 1", "1.5", "\u{661}"] {
        assert_eq!(NadaValue::new_secret_integer(input), refused, "{:?}", input);
        assert_eq!(NadaValue::new_public_integer(input), refused, "{:?}", input);
    }
}

#[test]
fn unsigned_integer_text_takes_no_minus_sign() {
    let refused = Err(ValueError::ValueParse { field: Field::Value });
    for input in ["-1", "-0", "", "+", "_1", "++1", "x"] {
        assert_eq!(NadaValue::new_secret_unsigned_integer(input), refused, "{:?}", input);
        assert_eq!(NadaValue::new_public_unsigned_integer(input), refused, "{:?}", input);
    }
    let text =
        |input: &str| NadaValue::new_public_unsigned_integer(input).and_then(|v| v.to_integer());
    assert_eq!(text("+42"), Ok("42".to_string()));
    assert_eq!(text("0_0"), Ok("0".to_string()));
    assert_eq!(text("18446744073709551616"), Ok("18446744073709551616".to_string()));
}

#[test]
fn digest_must_be_32_bytes() {
    for actual in [0usize, 31, 33] {
        assert_eq!(
            NadaValue::new_ecdsa_digest_message(vec![1; actual]),
            Err(ValueError::LengthMismatch { field: Field::Digest, expected: 32, actual })
        );
    }
    let digest = NadaValue::new_ecdsa_digest_message(vec![1; 32]).unwrap();
    assert_eq!(digest.to_byte_array(), Ok(vec![1; 32]));
}

#[test]
fn fixed_width_fields_are_checked() {
    assert_eq!(
        NadaValue::new_ecdsa_public_key(vec![1; 32]),
        Err(ValueError::LengthMismatch { field: Field::PublicKey, expected: 33, actual: 32 })
    );
    assert_eq!(
        NadaValue::new_eddsa_public_key(vec![1; 33]),
        Err(ValueError::LengthMismatch { field: Field::PublicKey, expected: 32, actual: 33 })
    );
    assert_eq!(
        NadaValue::new_store_id(vec![1; 15]),
        Err(ValueError::LengthMismatch { field: Field::StoreId, expected: 16, actual: 15 })
    );
    assert_eq!(NadaValue::new_ecdsa_public_key(vec![1; 33]).unwrap().to_byte_array(), Ok(vec![1; 33]));
    assert_eq!(NadaValue::new_eddsa_public_key(vec![2; 32]).unwrap().to_byte_array(), Ok(vec![2; 32]));
    assert_eq!(NadaValue::new_store_id(vec![3; 16]).unwrap().to_byte_array(), Ok(vec![3; 16]));
    assert_eq!(NadaValue::new_eddsa_message(vec![]).unwrap().to_byte_array(), Ok(vec![]));
}

#[test]
fn ecdsa_signature_components_must_not_be_zero() {
    assert_eq!(
        NadaValue::new_ecdsa_signature(vec![0; 32], vec![1; 32]),
        Err(ValueError::ScalarOrPointInvalid { field: Field::R })
    );
    assert_eq!(
        NadaValue::new_ecdsa_signature(vec![1; 32], vec![0; 32]),
        Err(ValueError::ScalarOrPointInvalid { field: Field::S })
    );
    assert_eq!(
        NadaValue::new_ecdsa_signature(vec![], vec![0; 32]),
        Err(ValueError::ScalarOrPointInvalid { field: Field::R })
    );
    assert_eq!(
        NadaValue::new_ecdsa_signature(vec![1; 32], vec![255; 32]),
        Err(ValueError::ScalarOrPointInvalid { field: Field::S })
    );
    assert_eq!(
        NadaValue::new_ecdsa_signature(vec![1; 33], vec![1; 32]),
        Err(ValueError::ScalarOrPointInvalid { field: Field::R })
    );
}

#[test]
fn ecdsa_signature_gives_its_components_back() {
    let value = NadaValue::new_ecdsa_signature(vec![1; 32], vec![2, 3]).unwrap();
    let signature = value.to_ecdsa_signature().unwrap();
    assert_eq!(signature.r(), vec![1; 32]);
    let mut s = vec![0; 30];
    s.extend([2, 3]);
    assert_eq!(signature.s(), s);
    assert_eq!(signature, EcdsaSignature::new(vec![1; 32], s));
    assert_eq!(
        value.to_eddsa_signature(),
        Err(ValueError::UnsupportedConversion { wanted: Representation::EddsaSignature })
    );
}

#[test]
fn the_order_of_secp256k1_is_the_first_scalar_refused() {
    let order: [u8; 32] = [
        0xFF, 0xFF, 0xFF, 0xFF, 0xFF, 0xFF, 0xFF, 0xFF, 0xFF, 0xFF, 0xFF, 0xFF, 0xFF, 0xFF, 0xFF,
        0xFE, 0xBA, 0xAE, 0xDC, 0xE6, 0xAF, 0x48, 0xA0, 0x3B, 0xBF, 0xD2, 0x5E, 0x8C, 0xD0, 0x36,
        0x41, 0x41,
    ];
    assert_eq!(
        NadaValue::new_ecdsa_private_key(order.to_vec()),
        Err(ValueError::ScalarOrPointInvalid { field: Field::X })
    );
    let mut below = order;
    below[31] = 0x40;
    let key = NadaValue::new_ecdsa_private_key(below.to_vec()).unwrap();
    assert_eq!(key.to_byte_array(), Ok(below.to_vec()));
}

#[test]
fn the_order_of_ed25519_is_the_first_scalar_refused() {
    let order: [u8; 32] = [
        0xED, 0xD3, 0xF5, 0x5C, 0x1A, 0x63, 0x12, 0x58, 0xD6, 0x9C, 0xF7, 0xA2, 0xDE, 0xF9, 0xDE,
        0x14, 0, 0, 0, 0, 0, 0, 0, 0, 0, 0, 0, 0, 0, 0, 0, 0x10,
    ];
    assert_eq!(
        NadaValue::new_eddsa_private_key(order.to_vec()),
        Err(ValueError::ScalarOrPointInvalid { field: Field::X })
    );
    let mut below = order;
    below[0] = 0xEC;
    let key = NadaValue::new_eddsa_private_key(below.to_vec()).unwrap();
    assert_eq!(key.to_byte_array(), Ok(below.to_vec()));
}

#[test]
fn private_keys_keep_their_byte_order() {
    let ecdsa = NadaValue::new_ecdsa_private_key(vec![1, 2]).unwrap();
    let mut big_endian = vec![0; 30];
    big_endian.extend([1, 2]);
    assert_eq!(ecdsa.to_byte_array(), Ok(big_endian));

    let eddsa = NadaValue::new_eddsa_private_key(vec![1, 2]).unwrap();
    let mut little_endian = vec![1, 2];
    little_endian.extend([0; 30]);
    assert_eq!(eddsa.to_byte_array(), Ok(little_endian));

    assert_eq!(NadaValue::new_ecdsa_private_key(vec![1; 32]).unwrap().to_byte_array(), Ok(vec![1; 32]));
    assert_eq!(NadaValue::new_eddsa_private_key(vec![1; 32]).unwrap().to_byte_array(), Ok(vec![1; 32]));
}

#[test]
fn private_keys_must_not_be_zero() {
    let refused = Err(ValueError::ScalarOrPointInvalid { field: Field::X });
    assert_eq!(NadaValue::new_ecdsa_private_key(vec![0; 32]), refused);
    assert_eq!(NadaValue::new_ecdsa_private_key(vec![]), refused);
    assert_eq!(NadaValue::new_ecdsa_private_key(vec![1; 33]), refused);
    assert_eq!(NadaValue::new_eddsa_private_key(vec![0; 32]), refused);
    assert_eq!(NadaValue::new_eddsa_private_key(vec![0]), refused);
    assert_eq!(NadaValue::new_eddsa_private_key(vec![255; 32]), refused);
}

#[test]
fn eddsa_signature_gives_its_components_back() {
    let value = NadaValue::new_eddsa_signature(eddsa_r(), eddsa_z()).unwrap();
    let signature = value.to_eddsa_signature().unwrap();
    assert_eq!(signature.r(), eddsa_r());
    assert_eq!(signature.z(), eddsa_z());
    let mut whole = eddsa_r();
    whole.extend(eddsa_z());
    assert_eq!(signature.signature(), whole);
    assert_eq!(signature, EddsaSignature::new(eddsa_r(), eddsa_z()));
}

#[test]
fn eddsa_signature_components_are_checked() {
    let refused = Err(ValueError::ScalarOrPointInvalid { field: Field::R });
    assert_eq!(NadaValue::new_eddsa_signature(eddsa_r()[..31].to_vec(), eddsa_z()), refused);
    assert_eq!(NadaValue::new_eddsa_signature(vec![], vec![]), refused);
    // the identity of the group
    assert_eq!(NadaValue::new_eddsa_signature([vec![1], vec![0; 31]].concat(), eddsa_z()), refused);
    // a point of order two
    assert_eq!(
        NadaValue::new_eddsa_signature([vec![0xEC], vec![0xFF; 30], vec![0x7F]].concat(), eddsa_z()),
        refused
    );
    assert_eq!(
        NadaValue::new_eddsa_signature(eddsa_r(), vec![255; 32]),
        Err(ValueError::ScalarOrPointInvalid { field: Field::Z })
    );
    assert_eq!(
        NadaValue::new_eddsa_signature(eddsa_r(), vec![0; 33]),
        Err(ValueError::ScalarOrPointInvalid { field: Field::Z })
    );
    let short = NadaValue::new_eddsa_signature(eddsa_r(), vec![7]).unwrap();
    assert_eq!(short.to_eddsa_signature().unwrap().z(), [vec![7], vec![0; 31]].concat());
}

#[test]
fn conversions_that_a_variant_lacks_are_refused() {
    let number = NadaValue::new_public_integer("1").unwrap();
    let blob = NadaValue::new_secret_blob(vec![1]);
    assert_eq!(
        number.to_byte_array(),
        Err(ValueError::UnsupportedConversion { wanted: Representation::ByteArray })
    );
    assert_eq!(
        NadaValue::new_secret_boolean(true).unwrap().to_byte_array(),
        Err(ValueError::UnsupportedConversion { wanted: Representation::ByteArray })
    );
    assert_eq!(
        blob.to_integer(),
        Err(ValueError::UnsupportedConversion { wanted: Representation::Integer })
    );
    assert_eq!(
        blob.to_ecdsa_signature(),
        Err(ValueError::UnsupportedConversion { wanted: Representation::EcdsaSignature })
    );
    assert_eq!(
        number.to_eddsa_signature(),
        Err(ValueError::UnsupportedConversion { wanted: Representation::EddsaSignature })
    );
    let signature = NadaValue::new_ecdsa_signature(vec![1; 32], vec![1; 32]).unwrap();
    assert_eq!(
        signature.to_byte_array(),
        Err(ValueError::UnsupportedConversion { wanted: Representation::ByteArray })
    );
}

fn one_of_each() -> Vec<(&'static str, NadaValue)> {
    vec![
        ("Integer", NadaValue::new_public_integer("42").unwrap()),
        ("UnsignedInteger", NadaValue::new_public_unsigned_integer("42").unwrap()),
        ("Boolean", NadaValue::new_public_boolean(true).unwrap()),
        ("SecretInteger", NadaValue::new_secret_integer("42").unwrap()),
        ("SecretUnsignedInteger", NadaValue::new_secret_unsigned_integer("42").unwrap()),
        ("SecretBoolean", NadaValue::new_secret_boolean(true).unwrap()),
        ("SecretBlob", NadaValue::new_secret_blob(vec![1, 2, 3])),
        ("EcdsaPrivateKey", NadaValue::new_ecdsa_private_key(vec![1; 32]).unwrap()),
        ("EcdsaDigestMessage", NadaValue::new_ecdsa_digest_message(vec![1; 32]).unwrap()),
        ("EcdsaSignature", NadaValue::new_ecdsa_signature(vec![1; 32], vec![1; 32]).unwrap()),
        ("EcdsaPublicKey", NadaValue::new_ecdsa_public_key(vec![1; 33]).unwrap()),
        ("EddsaPrivateKey", NadaValue::new_eddsa_private_key(vec![1; 32]).unwrap()),
        ("EddsaMessage", NadaValue::new_eddsa_message(vec![1; 32]).unwrap()),
        ("EddsaSignature", NadaValue::new_eddsa_signature(eddsa_r(), eddsa_z()).unwrap()),
        ("EddsaPublicKey", NadaValue::new_eddsa_public_key(vec![1; 32]).unwrap()),
        ("StoreId", NadaValue::new_store_id(vec![1; 16]).unwrap()),
    ]
}

#[test]
fn every_variant_has_its_tag() {
    for (tag, value) in one_of_each() {
        assert_eq!(value.type_tag(), Ok(tag.to_string()));
        assert_eq!(value.duplicate(), value);
    }
}

#[test]
fn a_record_shows_tag_and_content() {
    let mut values = NadaValues::new().unwrap();
    for (tag, value) in one_of_each() {
        values.insert(tag.to_lowercase(), &value);
    }
    let records = values.to_record().unwrap();
    assert_eq!(records.len(), 16);
    for (i, (tag, value)) in one_of_each().into_iter().enumerate() {
        assert_eq!(records[i].0, tag.to_lowercase());
        assert_eq!(records[i].1.type_tag, tag);
        assert_eq!(value.to_record().unwrap(), records[i].1);
    }
    assert_eq!(records[0].1.value, RecordValue::Text("42".to_string()));
    assert_eq!(records[2].1.value, RecordValue::Text("true".to_string()));
    assert_eq!(records[6].1.value, RecordValue::Bytes(vec![1, 2, 3]));
    assert_eq!(
        records[9].1.value,
        RecordValue::EcdsaSignature(EcdsaSignature::new(vec![1; 32], vec![1; 32]))
    );
    assert_eq!(
        records[13].1,
        Record {
            type_tag: "EddsaSignature".to_string(),
            value: RecordValue::EddsaSignature(EddsaSignature::new(eddsa_r(), eddsa_z())),
        }
    );
    assert_eq!(records[15].1.value, RecordValue::Bytes(vec![1; 16]));
}

#[test]
fn a_name_holds_one_value() {
    let mut values = NadaValues::new().unwrap();
    values.insert("a".to_string(), &NadaValue::new_secret_integer("1").unwrap());
    values.insert("b".to_string(), &NadaValue::new_secret_integer("2").unwrap());
    values.insert("A".to_string(), &NadaValue::new_secret_integer("3").unwrap());
    values.insert("a".to_string(), &NadaValue::new_secret_blob(vec![9]));
    assert_eq!(values.length(), 3);
    assert_eq!(values.get(&"a".to_string()), Some(&NadaValue::new_secret_blob(vec![9])));
    assert_eq!(values.get(&"A".to_string()), Some(&NadaValue::new_secret_integer("3").unwrap()));
    assert_eq!(values.get(&"c".to_string()), None);
    assert_eq!(values.name_at(0), "a");
    assert_eq!(values.name_at(1), "b");
    assert_eq!(values.value_at(1), &NadaValue::new_secret_integer("2").unwrap());
}

#[test]
fn collections_are_compared_whatever_the_order() {
    let one = NadaValue::new_secret_integer("1").unwrap();
    let two = NadaValue::new_secret_blob(vec![2]);
    let mut left = NadaValues::new().unwrap();
    left.insert("a".to_string(), &one);
    left.insert("b".to_string(), &two);
    let mut right = NadaValues::new().unwrap();
    right.insert("b".to_string(), &two);
    assert!(!left.same_as(&right));
    assert!(!right.same_as(&left));
    right.insert("a".to_string(), &one);
    assert!(left.same_as(&right));
    assert!(right.same_as(&left));
    assert_ne!(left, right);
    assert_eq!(left.duplicate(), left);
    right.insert("a".to_string(), &NadaValue::new_public_integer("1").unwrap());
    assert!(!left.same_as(&right));
    right.insert("a".to_string(), &one);
    right.insert("c".to_string(), &one);
    assert!(!left.same_as(&right));
    assert!(NadaValues::new().unwrap().same_as(&NadaValues::new().unwrap()));
}

#[test]
fn values_are_compared_by_variant_and_content() {
    let values = one_of_each();
    for (i, (_, left)) in values.iter().enumerate() {
        for (k, (_, right)) in values.iter().enumerate() {
            assert_eq!(left.same_as(right), i == k);
        }
    }
    let same = |left: &str, right: &str| {
        NadaValue::new_secret_integer(left).unwrap().same_as(&NadaValue::new_secret_integer(right).unwrap())
    };
    assert!(same("+7", "07"));
    assert!(same("-0", "0"));
    assert!(!same("7", "-7"));
    assert!(!NadaValue::new_secret_blob(vec![1]).same_as(&NadaValue::new_secret_blob(vec![1, 0])));
    assert!(!NadaValue::new_public_boolean(true)
        .unwrap()
        .same_as(&NadaValue::new_secret_boolean(true).unwrap()));
}

#[test]
fn every_variant_is_told() {
    let variants = [
        ClearType::Integer,
        ClearType::UnsignedInteger,
        ClearType::Boolean,
        ClearType::SecretInteger,
        ClearType::SecretUnsignedInteger,
        ClearType::SecretBoolean,
        ClearType::SecretBlob,
        ClearType::EcdsaPrivateKey,
        ClearType::EcdsaDigestMessage,
        ClearType::EcdsaSignature,
        ClearType::EcdsaPublicKey,
        ClearType::EddsaPrivateKey,
        ClearType::EddsaMessage,
        ClearType::EddsaSignature,
        ClearType::EddsaPublicKey,
        ClearType::StoreId,
    ];
    for ((_, value), variant) in one_of_each().into_iter().zip(variants) {
        assert_eq!(value.variant(), variant);
    }
}

#[test]
fn a_public_value_is_tagged_with_the_name_of_its_variant() {
    assert_eq!(NadaValue::new_public_integer("23").unwrap().type_tag(), Ok("Integer".to_string()));
    assert_eq!(
        NadaValue::new_public_unsigned_integer("23").unwrap().type_tag(),
        Ok("UnsignedInteger".to_string())
    );
    assert_eq!(NadaValue::new_public_boolean(true).unwrap().type_tag(), Ok("Boolean".to_string()));
    assert_eq!(
        NadaValue::new_secret_integer("23").unwrap().type_tag(),
        Ok("SecretInteger".to_string())
    );
    assert_eq!(
        NadaValue::new_public_integer("23").unwrap().to_record().unwrap().type_tag,
        "Integer"
    );
}
