use nada_values::encrypted::{
    EncodedModularNumber, EncodedModulo, EncryptedNadaValue, EncryptedNadaValues, EncryptedType,
};
use nada_values::errors::{JarFault, ValueError};
use nada_values::jar::PartyJar;
use nada_values::masker::{
    category_of, masked_type_of, Category, NadaValuesClassification, PartyId, PartyShares,
    SecretMasker,
};
use nada_values::{NadaValue, NadaValues};

fn party(id: u8) -> PartyId {
    PartyId::new(vec![id])
}

fn make_masker() -> SecretMasker {
    SecretMasker::new_64_bit_safe_prime(1, vec![party(1), party(2), party(3)])
        .expect("failed to build masker")
}

fn number(bytes: &[u8]) -> EncodedModularNumber {
    EncodedModularNumber::new_unchecked(bytes.to_vec(), EncodedModulo::U64SafePrime)
}

fn shares(id: u8, entries: Vec<(&str, EncryptedNadaValue)>) -> PartyShares {
    let mut values = EncryptedNadaValues::new();
    for (name, value) in entries {
        values.insert(name.to_string(), value);
    }
    PartyShares::new(party(id), values).unwrap()
}

fn plain(id: u8) -> PartyShares {
    shares(
        id,
        vec![
            ("a", EncryptedNadaValue::ShamirShareInteger(number(&[id; 8]))),
            ("d", EncryptedNadaValue::Integer(number(&[101, 0, 0, 0, 0, 0, 0, 0]))),
        ],
    )
}

fn jar_fault(fault: JarFault) -> ValueError {
    ValueError::JarValidation { fault }
}

#[test]
fn value_classification() {
    let mut values = NadaValues::new().unwrap();
    values.insert("a".into(), &NadaValue::new_secret_integer("42").unwrap());
    values.insert("b".into(), &NadaValue::new_secret_blob(vec![1, 2, 3]));
    values.insert("c".into(), &NadaValue::new_secret_unsigned_integer("1337").unwrap());
    values.insert("d".into(), &NadaValue::new_public_integer("101").unwrap());

    let masker = make_masker();
    let NadaValuesClassification { shares, public, ecdsa_private_key_shares, ecdsa_signature_shares } =
        masker.classify_values(&values);
    assert_eq!(shares, 3);
    assert_eq!(public, 1);
    assert_eq!(ecdsa_private_key_shares, 0);
    assert_eq!(ecdsa_signature_shares, 0);
}

#[test]
fn every_value_is_counted_once() {
    let mut values = NadaValues::new().unwrap();
    assert_eq!(
        make_masker().classify_values(&values),
        NadaValuesClassification {
            shares: 0,
            public: 0,
            ecdsa_private_key_shares: 0,
            ecdsa_signature_shares: 0
        }
    );
    let all = [
        (NadaValue::new_public_integer("1").unwrap(), Category::Public),
        (NadaValue::new_public_unsigned_integer("1").unwrap(), Category::Public),
        (NadaValue::new_public_boolean(true).unwrap(), Category::Public),
        (NadaValue::new_secret_integer("1").unwrap(), Category::Share),
        (NadaValue::new_secret_unsigned_integer("1").unwrap(), Category::Share),
        (NadaValue::new_secret_boolean(true).unwrap(), Category::Share),
        (NadaValue::new_secret_blob(vec![0; 100]), Category::Share),
        (NadaValue::new_ecdsa_private_key(vec![1; 32]).unwrap(), Category::PrivateKeyShare),
        (NadaValue::new_ecdsa_digest_message(vec![1; 32]).unwrap(), Category::Public),
        (NadaValue::new_ecdsa_signature(vec![1; 32], vec![1; 32]).unwrap(), Category::SignatureShare),
        (NadaValue::new_ecdsa_public_key(vec![1; 33]).unwrap(), Category::Public),
        (NadaValue::new_eddsa_private_key(vec![1; 32]).unwrap(), Category::PrivateKeyShare),
        (NadaValue::new_eddsa_message(vec![1]).unwrap(), Category::Public),
        (NadaValue::new_eddsa_public_key(vec![1; 32]).unwrap(), Category::Public),
        (NadaValue::new_store_id(vec![1; 16]).unwrap(), Category::Public),
    ];
    for (i, (value, category)) in all.iter().enumerate() {
        assert_eq!(category_of(value), *category);
        values.insert(format!("v{}", i), value);
    }
    values.insert("v0".to_string(), &NadaValue::new_secret_integer("5").unwrap());
    assert_eq!(
        make_masker().classify_values(&values),
        NadaValuesClassification {
            shares: 5,
            public: 7,
            ecdsa_private_key_shares: 2,
            ecdsa_signature_shares: 1
        }
    );
}

#[test]
fn a_masker_needs_more_parties_than_the_degree() {
    let parties = || vec![party(1), party(2), party(3)];
    assert!(SecretMasker::new_64_bit_safe_prime(0, parties()).is_ok());
    assert!(SecretMasker::new_64_bit_safe_prime(2, parties()).is_ok());
    assert_eq!(
        SecretMasker::new_64_bit_safe_prime(3, parties()),
        Err(ValueError::MaskerConstruction)
    );
    assert_eq!(
        SecretMasker::new_128_bit_safe_prime(u64::MAX, parties()),
        Err(ValueError::MaskerConstruction)
    );
    assert_eq!(SecretMasker::new_256_bit_safe_prime(0, vec![]), Err(ValueError::MaskerConstruction));
    assert!(SecretMasker::new_256_bit_safe_prime(0, vec![party(1)]).is_ok());
}

#[test]
fn a_party_counts_once() {
    let parties = || vec![party(2), party(1), party(2), party(2), party(1)];
    let masker = SecretMasker::new_128_bit_safe_prime(1, parties()).unwrap();
    assert_eq!(masker.parties(), vec![party(2), party(1)]);
    assert_eq!(masker.polynomial_degree(), 1);
    assert_eq!(
        SecretMasker::new_128_bit_safe_prime(2, parties()),
        Err(ValueError::MaskerConstruction)
    );
    // identifiers are compared by content
    let ids = vec![PartyId::new(vec![1, 0]), PartyId::new(vec![1]), PartyId::new(vec![])];
    let masker = SecretMasker::new_64_bit_safe_prime(2, ids.clone()).unwrap();
    assert_eq!(masker.parties(), ids);
    assert_eq!(ids[0].to_byte_array(), vec![1, 0]);
    assert!(ids[1].same_as(&party(1)));
    assert!(!ids[1].same_as(&ids[0]));
}

#[test]
fn a_masker_keeps_its_field() {
    let parties = || vec![party(1)];
    assert_eq!(
        SecretMasker::new_64_bit_safe_prime(0, parties()).unwrap().modulo(),
        EncodedModulo::U64SafePrime
    );
    assert_eq!(
        SecretMasker::new_128_bit_safe_prime(0, parties()).unwrap().modulo(),
        EncodedModulo::U128SafePrime
    );
    assert_eq!(
        SecretMasker::new_256_bit_safe_prime(0, parties()).unwrap().modulo(),
        EncodedModulo::U256SafePrime
    );
}

#[test]
fn party_shares_give_back_what_they_were_made_of() {
    let made = plain(7);
    assert_eq!(made.party(), party(7));
    assert_eq!(made.shares().length(), 2);
    assert_eq!(made.shares(), *made.shares_ref());
    assert_eq!(made.party_ref(), &party(7));
}

#[test]
fn a_jar_takes_one_contribution_from_each_party() {
    let jar = PartyJar::new_with_elements(vec![plain(3), plain(1), plain(2)]).unwrap();
    assert_eq!(jar.len(), 3);
    assert_eq!(jar.element(1).party(), party(1));
    assert_eq!(make_masker().check_jar(&jar), Ok(()));
    assert_eq!(jar.check_agreement(), Ok(()));
}

#[test]
fn a_party_that_contributes_twice_is_refused() {
    assert_eq!(
        PartyJar::new_with_elements(vec![plain(1), plain(2), plain(1), plain(2)]),
        Err(jar_fault(JarFault::Duplicate { contribution: 2 }))
    );
    assert_eq!(
        PartyJar::new_with_elements(vec![plain(1), plain(1)]),
        Err(jar_fault(JarFault::Duplicate { contribution: 1 }))
    );
    assert!(PartyJar::new_with_elements(vec![]).is_ok());
}

#[test]
fn a_missing_contribution_is_refused() {
    let masker = make_masker();
    let jar = PartyJar::new_with_elements(vec![plain(3), plain(1)]).unwrap();
    assert_eq!(masker.check_jar(&jar), Err(jar_fault(JarFault::Missing { participant: 1 })));
    let jar = PartyJar::new_with_elements(vec![]).unwrap();
    assert_eq!(masker.check_jar(&jar), Err(jar_fault(JarFault::Missing { participant: 0 })));
}

#[test]
fn a_contribution_of_an_unconfigured_party_is_refused() {
    let masker = make_masker();
    let jar = PartyJar::new_with_elements(vec![plain(1), plain(2), plain(4), plain(3)]).unwrap();
    assert_eq!(masker.check_jar(&jar), Err(jar_fault(JarFault::Unexpected { contribution: 2 })));
    // an unconfigured party is reported before a missing one
    let jar = PartyJar::new_with_elements(vec![plain(9), plain(2)]).unwrap();
    assert_eq!(masker.check_jar(&jar), Err(jar_fault(JarFault::Unexpected { contribution: 0 })));
}

#[test]
fn participants_must_hold_the_same_names_and_variants() {
    let mismatch = |contribution, entry| Err(ValueError::ReconstructionMismatch { contribution, entry });
    let share = |id: u8| EncryptedNadaValue::ShamirShareInteger(number(&[id; 8]));
    let public = |bit: u8| EncryptedNadaValue::Boolean(number(&[bit]));
    let check = |elements: Vec<PartyShares>| PartyJar::new_with_elements(elements).unwrap().check_agreement();

    // the order of the names does not count
    assert_eq!(
        check(vec![
            shares(1, vec![("a", share(1)), ("b", public(1))]),
            shares(2, vec![("b", public(1)), ("a", share(2))]),
        ]),
        Ok(())
    );
    // another variant under a name
    assert_eq!(
        check(vec![
            shares(1, vec![("a", share(1)), ("b", public(1))]),
            shares(2, vec![("a", share(2)), ("b", public(1))]),
            shares(3, vec![("a", share(3)), ("b", EncryptedNadaValue::Integer(number(&[1])))]),
        ]),
        mismatch(2, 1)
    );
    // a name that is missing
    assert_eq!(
        check(vec![
            shares(1, vec![("a", share(1)), ("b", public(1))]),
            shares(2, vec![("c", share(2)), ("b", public(1))]),
        ]),
        mismatch(1, 0)
    );
    // a public value on which the participants disagree
    assert_eq!(
        check(vec![
            shares(1, vec![("a", share(1)), ("b", public(1))]),
            shares(2, vec![("a", share(2)), ("b", public(0))]),
        ]),
        mismatch(1, 1)
    );
    // one value more than the first participant holds
    assert_eq!(
        check(vec![
            shares(1, vec![("a", share(1))]),
            shares(2, vec![("a", share(2)), ("b", public(0))]),
        ]),
        mismatch(1, 1)
    );
    assert_eq!(check(vec![]), Ok(()));
    assert_eq!(check(vec![plain(1)]), Ok(()));
}

#[test]
fn public_values_of_every_kind_are_compared() {
    let check = |left: EncryptedNadaValue, right: EncryptedNadaValue| {
        PartyJar::new_with_elements(vec![shares(1, vec![("v", left)]), shares(2, vec![("v", right)])])
            .unwrap()
            .check_agreement()
    };
    let differ = Err(ValueError::ReconstructionMismatch { contribution: 1, entry: 0 });
    let other_field = EncodedModularNumber::new_unchecked(vec![1], EncodedModulo::U128SafePrime);
    assert_eq!(
        check(EncryptedNadaValue::Integer(number(&[1])), EncryptedNadaValue::Integer(other_field)),
        differ
    );
    assert_eq!(
        check(
            EncryptedNadaValue::UnsignedInteger(number(&[1])),
            EncryptedNadaValue::UnsignedInteger(number(&[1, 0]))
        ),
        differ
    );
    assert_eq!(
        check(
            EncryptedNadaValue::EcdsaDigestMessage(vec![1; 32]),
            EncryptedNadaValue::EcdsaDigestMessage(vec![2; 32])
        ),
        differ
    );
    assert_eq!(
        check(
            EncryptedNadaValue::EcdsaPublicKey(vec![1; 33]),
            EncryptedNadaValue::EcdsaPublicKey(vec![2; 33])
        ),
        differ
    );
    assert_eq!(
        check(EncryptedNadaValue::EddsaMessage(vec![1]), EncryptedNadaValue::EddsaMessage(vec![])),
        differ
    );
    assert_eq!(
        check(
            EncryptedNadaValue::EddsaPublicKey(vec![1; 32]),
            EncryptedNadaValue::EddsaPublicKey(vec![2; 32])
        ),
        differ
    );
    assert_eq!(
        check(EncryptedNadaValue::StoreId(vec![1; 16]), EncryptedNadaValue::StoreId(vec![2; 16])),
        differ
    );
    assert_eq!(
        check(EncryptedNadaValue::StoreId(vec![1; 16]), EncryptedNadaValue::StoreId(vec![1; 16])),
        Ok(())
    );
    // shares differ from one participant to the next
    assert_eq!(
        check(
            EncryptedNadaValue::ShamirShareBoolean(number(&[1])),
            EncryptedNadaValue::ShamirShareBoolean(number(&[2]))
        ),
        Ok(())
    );
}

fn clear_values() -> NadaValues {
    let mut values = NadaValues::new().unwrap();
    values.insert("a".into(), &NadaValue::new_secret_integer("42").unwrap());
    values.insert("d".into(), &NadaValue::new_public_integer("101").unwrap());
    values
}

#[test]
fn a_jar_is_collected_where_all_checks_pass() {
    let masker = make_masker();
    let jar = masker.collect_jar(vec![plain(2), plain(3), plain(1)]).unwrap();
    assert_eq!(jar.len(), 3);
    assert_eq!(jar.element(0), &plain(2));
    assert_eq!(masker.check_masked(&clear_values(), &jar), Ok(()));
}

#[test]
fn the_first_check_that_fails_is_reported() {
    let masker = make_masker();
    let odd = |id: u8| shares(id, vec![("a", EncryptedNadaValue::ShamirShareInteger(number(&[id])))]);
    // a repeated party comes before an unconfigured one
    assert_eq!(
        masker.collect_jar(vec![plain(9), plain(1), plain(1)]),
        Err(jar_fault(JarFault::Duplicate { contribution: 2 }))
    );
    // an unconfigured party comes before a missing one
    assert_eq!(
        masker.collect_jar(vec![plain(1), plain(9)]),
        Err(jar_fault(JarFault::Unexpected { contribution: 1 }))
    );
    // a missing party comes before a disagreement
    assert_eq!(
        masker.collect_jar(vec![plain(1), odd(3)]),
        Err(jar_fault(JarFault::Missing { participant: 1 }))
    );
    assert_eq!(
        masker.collect_jar(vec![plain(1), plain(2), odd(3)]),
        Err(ValueError::ReconstructionMismatch { contribution: 2, entry: 1 })
    );
    assert_eq!(
        masker.collect_jar(vec![odd(1), plain(2), odd(3)]),
        Err(ValueError::ReconstructionMismatch { contribution: 1, entry: 1 })
    );
}

#[test]
fn shares_must_have_the_shape_of_the_values() {
    let masker = make_masker();
    let values = clear_values();
    let mismatch = |contribution, entry| Err(ValueError::ReconstructionMismatch { contribution, entry });
    let check = |elements: Vec<PartyShares>| {
        masker.check_masked(&values, &PartyJar::new_with_elements(elements).unwrap())
    };
    let share = EncryptedNadaValue::ShamirShareInteger(number(&[1; 8]));
    let public = EncryptedNadaValue::Integer(number(&[101, 0, 0, 0, 0, 0, 0, 0]));

    assert_eq!(check(vec![plain(1), plain(2), plain(3)]), Ok(()));
    assert_eq!(check(vec![]), Ok(()));
    // a secret that was not shared
    assert_eq!(
        check(vec![plain(1), shares(2, vec![("a", public.clone()), ("d", public.clone())])]),
        mismatch(1, 0)
    );
    // a public value that turned into a share
    assert_eq!(
        check(vec![shares(1, vec![("a", share.clone()), ("d", share.clone())])]),
        mismatch(0, 1)
    );
    // a name that is not among the values
    assert_eq!(
        check(vec![plain(1), shares(2, vec![("a", share.clone()), ("e", public.clone())])]),
        mismatch(1, 1)
    );
    // one entry too many
    assert_eq!(
        check(vec![shares(
            1,
            vec![("a", share.clone()), ("d", public.clone()), ("e", public.clone())]
        )]),
        mismatch(0, 2)
    );
    // a number of another field
    let other_field = EncryptedNadaValue::Integer(EncodedModularNumber::new_unchecked(
        vec![101, 0, 0, 0, 0, 0, 0, 0],
        EncodedModulo::U128SafePrime,
    ));
    assert_eq!(check(vec![shares(1, vec![("a", share.clone()), ("d", other_field)])]), mismatch(0, 1));
}

#[test]
fn masking_keeps_the_variant_but_for_secret_numbers() {
    let pairs = [
        (NadaValue::new_public_integer("1").unwrap(), EncryptedType::Integer),
        (NadaValue::new_public_unsigned_integer("1").unwrap(), EncryptedType::UnsignedInteger),
        (NadaValue::new_public_boolean(true).unwrap(), EncryptedType::Boolean),
        (NadaValue::new_secret_integer("1").unwrap(), EncryptedType::ShamirShareInteger),
        (
            NadaValue::new_secret_unsigned_integer("1").unwrap(),
            EncryptedType::ShamirShareUnsignedInteger,
        ),
        (NadaValue::new_secret_boolean(true).unwrap(), EncryptedType::ShamirShareBoolean),
        (NadaValue::new_secret_blob(vec![]), EncryptedType::SecretBlob),
        (NadaValue::new_ecdsa_private_key(vec![1; 32]).unwrap(), EncryptedType::EcdsaPrivateKey),
        (NadaValue::new_ecdsa_digest_message(vec![1; 32]).unwrap(), EncryptedType::EcdsaDigestMessage),
        (
            NadaValue::new_ecdsa_signature(vec![1; 32], vec![1; 32]).unwrap(),
            EncryptedType::EcdsaSignature,
        ),
        (NadaValue::new_ecdsa_public_key(vec![1; 33]).unwrap(), EncryptedType::EcdsaPublicKey),
        (NadaValue::new_eddsa_private_key(vec![1; 32]).unwrap(), EncryptedType::EddsaPrivateKey),
        (NadaValue::new_eddsa_message(vec![1]).unwrap(), EncryptedType::EddsaMessage),
        (NadaValue::new_eddsa_public_key(vec![1; 32]).unwrap(), EncryptedType::EddsaPublicKey),
        (NadaValue::new_store_id(vec![1; 16]).unwrap(), EncryptedType::StoreId),
    ];
    for (value, variant) in pairs {
        assert_eq!(masked_type_of(&value), variant);
    }
}

#[test]
fn a_jar_is_accepted_whatever_the_order_of_the_contributions() {
    let masker = make_masker();
    let orders = [[1, 2, 3], [1, 3, 2], [2, 1, 3], [2, 3, 1], [3, 1, 2], [3, 2, 1]];
    for order in orders {
        let agreeing = order.iter().map(|id| plain(*id)).collect();
        assert!(masker.collect_jar(agreeing).is_ok(), "{:?}", order);
        let odd = |id: u8| {
            if id == 2 {
                shares(id, vec![("a", EncryptedNadaValue::ShamirShareInteger(number(&[id])))])
            } else {
                plain(id)
            }
        };
        let disagreeing = order.iter().map(|id| odd(*id)).collect();
        assert!(masker.collect_jar(disagreeing).is_err(), "{:?}", order);
        let unconfigured = order.iter().map(|id| plain(*id + 1)).collect();
        assert!(masker.collect_jar(unconfigured).is_err(), "{:?}", order);
    }
}
