//! The configuration of a secret masker, the classification of the values
//! it is given, and the jar of participant shares it reconstructs from.

use crate::bytes::{bytes_equal, copy_bytes};
use crate::encrypted::{EncodedModulo, EncryptedNadaValues, EncryptedType, EncryptedValue};
use crate::errors::ValueError;
use crate::values::{ClearType, ClearValue, NadaValue, NadaValues};
use vstd::prelude::*;

verus! {

/// A party identifier: bytes that mean nothing but themselves.
#[derive(Clone, Debug, PartialEq, Eq)]
pub struct PartyId(Vec<u8>);

impl View for PartyId {
    type V = Seq<u8>;

    closed spec fn view(&self) -> Seq<u8> {
        self.0@
    }
}

impl PartyId {
    /// The party with the identifier given.
    pub fn new(id: Vec<u8>) -> (party: Self)
        ensures
            party@ == id@,
    {
        PartyId(id)
    }

    /// The bytes of the identifier.
    pub fn to_byte_array(&self) -> (bytes: Vec<u8>)
        ensures
            bytes@ == self@,
    {
        copy_bytes(&self.0)
    }

    /// A party with the same identifier.
    pub fn duplicate(&self) -> (copy: Self)
        ensures
            copy@ == self@,
    {
        PartyId(copy_bytes(&self.0))
    }

    /// Whether two identifiers hold the same bytes.
    pub fn same_as(&self, other: &PartyId) -> (same: bool)
        ensures
            same == (self@ == other@),
    {
        bytes_equal(&self.0, &other.0)
    }
}

/// The identifiers that a list of parties holds, in the same order.
pub open spec fn parties_view(parties: Seq<PartyId>) -> Seq<Seq<u8>> {
    Seq::new(parties.len(), |i: int| parties[i]@)
}

/// Whether no identifier occurs twice among `ids`.
pub open spec fn no_repeats(ids: Seq<Seq<u8>>) -> bool {
    forall|i: int, j: int| 0 <= i < j < ids.len() ==> ids[i] != ids[j]
}

/// `ids` without the repeats: each identifier where it first occurs.
pub open spec fn without_repeats(ids: Seq<Seq<u8>>) -> Seq<Seq<u8>>
    decreases ids.len(),
{
    if ids.len() == 0 {
        Seq::empty()
    } else {
        let front = without_repeats(ids.drop_last());
        if front.contains(ids.last()) {
            front
        } else {
            front.push(ids.last())
        }
    }
}

/// The position of `party` among `parties`, if it is one of them.
pub(crate) fn position_of(parties: &Vec<PartyId>, party: &PartyId) -> (place: Option<usize>)
    ensures
        place.is_some() == parties_view(parties@).contains(party@),
        place matches Some(i) ==> i < parties@.len() && parties@[i as int]@ == party@ && forall|
            k: int,
        | 0 <= k < i ==> parties@[k]@ != party@,
{
    let mut i: usize = 0;
    while i < parties.len()
        invariant
            i <= parties.len(),
            forall|k: int| 0 <= k < i ==> parties@[k]@ != party@,
        decreases parties.len() - i,
    {
        if parties[i].same_as(party) {
            assert(parties_view(parties@)[i as int] == party@);
            return Some(i);
        }
        i = i + 1;
    }
    assert(!parties_view(parties@).contains(party@)) by {
        if parties_view(parties@).contains(party@) {
            let k = choose|k: int|
                0 <= k < parties_view(parties@).len() && parties_view(parties@)[k] == party@;
            assert(parties@[k]@ != party@);
        }
    }
    None
}

/// The shares for a party: what the party holds of every value.
#[derive(Debug, PartialEq, Eq)]
pub struct PartyShares {
    party: PartyId,
    shares: EncryptedNadaValues,
}

/// What a [`PartyShares`] holds.
pub struct PartySharesView {
    pub party: Seq<u8>,
    pub shares: Seq<(Seq<char>, EncryptedValue)>,
}

impl View for PartyShares {
    type V = PartySharesView;

    closed spec fn view(&self) -> PartySharesView {
        PartySharesView { party: self.party@, shares: self.shares@ }
    }
}

impl PartyShares {
    /// The shares given, for the party given.
    pub fn new(party: PartyId, shares: EncryptedNadaValues) -> (made: Result<
        PartyShares,
        ValueError,
    >)
        ensures
            made.is_ok(),
            made->Ok_0@ == (PartySharesView { party: party@, shares: shares@ }),
    {
        Ok(PartyShares { party, shares })
    }

    /// The party that the shares are for.
    pub fn party(&self) -> (party: PartyId)
        ensures
            party@ == self@.party,
    {
        self.party.duplicate()
    }

    /// The shares.
    pub fn shares(&self) -> (shares: EncryptedNadaValues)
        ensures
            shares@ == self@.shares,
    {
        self.shares.duplicate()
    }

    /// The party that the shares are for, in place.
    pub fn party_ref(&self) -> (party: &PartyId)
        ensures
            party@ == self@.party,
    {
        &self.party
    }

    /// The shares, in place.
    pub fn shares_ref(&self) -> (shares: &EncryptedNadaValues)
        ensures
            shares@ == self@.shares,
    {
        &self.shares
    }
}

/// What a list of shares for parties holds, in the same order.
pub open spec fn shares_view(shares: Seq<PartyShares>) -> Seq<PartySharesView> {
    Seq::new(shares.len(), |i: int| shares[i]@)
}

/// The parties of a list of contributions, in the same order.
pub open spec fn contributors(contributions: Seq<PartySharesView>) -> Seq<Seq<u8>> {
    Seq::new(contributions.len(), |i: int| contributions[i].party)
}

/// The four kinds that cleartext values fall into when they are masked.
#[derive(Clone, Copy, Debug, PartialEq, Eq, Structural)]
pub enum Category {
    /// A secret number, boolean or blob, which is freshly shared.
    Share,
    /// A value that every participant gets as it is.
    Public,
    /// A private key, which is held as key shares.
    PrivateKeyShare,
    /// A signature, which is held as signature shares.
    SignatureShare,
}

impl ClearValue {
    /// The kind that the value falls into when it is masked.
    pub open spec fn category(self) -> Category {
        match self {
            ClearValue::SecretInteger(_)
            | ClearValue::SecretUnsignedInteger(_)
            | ClearValue::SecretBoolean(_)
            | ClearValue::SecretBlob(_) => Category::Share,
            ClearValue::EcdsaPrivateKey(_) | ClearValue::EddsaPrivateKey(_) =>
                Category::PrivateKeyShare,
            ClearValue::EcdsaSignature(_) | ClearValue::EddsaSignature(_) =>
                Category::SignatureShare,
            _ => Category::Public,
        }
    }

    /// The variant of what each participant holds of the value after
    /// masking: a share for a secret number or boolean, the same variant
    /// for the rest.
    pub open spec fn masked_variant(self) -> EncryptedType {
        match self {
            ClearValue::Integer(_) => EncryptedType::Integer,
            ClearValue::UnsignedInteger(_) => EncryptedType::UnsignedInteger,
            ClearValue::Boolean(_) => EncryptedType::Boolean,
            ClearValue::SecretInteger(_) => EncryptedType::ShamirShareInteger,
            ClearValue::SecretUnsignedInteger(_) => EncryptedType::ShamirShareUnsignedInteger,
            ClearValue::SecretBoolean(_) => EncryptedType::ShamirShareBoolean,
            ClearValue::SecretBlob(_) => EncryptedType::SecretBlob,
            ClearValue::EcdsaPrivateKey(_) => EncryptedType::EcdsaPrivateKey,
            ClearValue::EcdsaDigestMessage(_) => EncryptedType::EcdsaDigestMessage,
            ClearValue::EcdsaSignature(_) => EncryptedType::EcdsaSignature,
            ClearValue::EcdsaPublicKey(_) => EncryptedType::EcdsaPublicKey,
            ClearValue::EddsaPrivateKey(_) => EncryptedType::EddsaPrivateKey,
            ClearValue::EddsaMessage(_) => EncryptedType::EddsaMessage,
            ClearValue::EddsaSignature(_) => EncryptedType::EddsaSignature,
            ClearValue::EddsaPublicKey(_) => EncryptedType::EddsaPublicKey,
            ClearValue::StoreId(_) => EncryptedType::StoreId,
        }
    }
}

/// How many of `values` fall into `category`.
pub open spec fn count_of(values: Seq<(Seq<char>, ClearValue)>, category: Category) -> nat
    decreases values.len(),
{
    if values.len() == 0 {
        0
    } else {
        count_of(values.drop_last(), category) + if values.last().1.category() == category {
            1nat
        } else {
            0nat
        }
    }
}

/// The classification of a set of cleartext values: how many fall into
/// each of the four kinds.
#[derive(Clone, Copy, Debug, PartialEq, Eq, Structural)]
pub struct NadaValuesClassification {
    /// The number of values that are freshly shared.
    pub shares: u64,
    /// The number of public values.
    pub public: u64,
    /// The number of private keys, held as key shares.
    pub ecdsa_private_key_shares: u64,
    /// The number of signatures, held as signature shares.
    pub ecdsa_signature_shares: u64,
}

/// The four counts add up to the number of values.
pub proof fn lemma_counts_cover(values: Seq<(Seq<char>, ClearValue)>)
    ensures
        count_of(values, Category::Share) + count_of(values, Category::Public) + count_of(
            values,
            Category::PrivateKeyShare,
        ) + count_of(values, Category::SignatureShare) == values.len(),
    decreases values.len(),
{
    if values.len() > 0 {
        lemma_counts_cover(values.drop_last());
    }
}

/// The configuration of a secret masker: the prime field, the degree of
/// the sharing polynomial, and the parties, each once.
#[derive(Debug, PartialEq, Eq)]
pub struct SecretMasker {
    modulo: EncodedModulo,
    polynomial_degree: u64,
    parties: Vec<PartyId>,
}

/// What a [`SecretMasker`] holds.
pub struct MaskerView {
    pub modulo: EncodedModulo,
    pub polynomial_degree: u64,
    pub parties: Seq<Seq<u8>>,
}

impl View for SecretMasker {
    type V = MaskerView;

    closed spec fn view(&self) -> MaskerView {
        MaskerView {
            modulo: self.modulo,
            polynomial_degree: self.polynomial_degree,
            parties: parties_view(self.parties@),
        }
    }
}

impl MaskerView {
    /// Whether the configuration makes a sharing scheme: no party twice,
    /// and more parties than the degree of the polynomial.
    pub open spec fn wf(self) -> bool {
        no_repeats(self.parties) && self.polynomial_degree < self.parties.len()
    }
}

/// Dropping the repeats leaves no identifier twice, and the same
/// identifiers.
pub proof fn lemma_without_repeats(ids: Seq<Seq<u8>>)
    ensures
        no_repeats(without_repeats(ids)),
        forall|id: Seq<u8>| without_repeats(ids).contains(id) == ids.contains(id),
        without_repeats(ids).len() <= ids.len(),
    decreases ids.len(),
{
    if ids.len() > 0 {
        let front = without_repeats(ids.drop_last());
        lemma_without_repeats(ids.drop_last());
        let all = without_repeats(ids);
        assert forall|id: Seq<u8>| all.contains(id) == ids.contains(id) by {
            if all.contains(id) {
                let k = choose|k: int| 0 <= k < all.len() && all[k] == id;
                if k < front.len() {
                    assert(front[k] == id);
                    assert(front.contains(id));
                    assert(ids.drop_last().contains(id));
                    let m = choose|m: int|
                        0 <= m < ids.drop_last().len() && ids.drop_last()[m] == id;
                    assert(ids[m] == id);
                } else {
                    assert(ids[ids.len() - 1] == id);
                }
            }
            if ids.contains(id) {
                let m = choose|m: int| 0 <= m < ids.len() && ids[m] == id;
                if m < ids.len() - 1 {
                    assert(ids.drop_last()[m] == id);
                    assert(ids.drop_last().contains(id));
                    assert(front.contains(id));
                    let k = choose|k: int| 0 <= k < front.len() && front[k] == id;
                    assert(all[k] == id);
                } else {
                    if front.contains(id) {
                    } else {
                        assert(all[front.len() as int] == id);
                    }
                }
            }
        }
        assert forall|i: int, j: int| 0 <= i < j < all.len() implies all[i] != all[j] by {
            if j < front.len() {
            } else {
                assert(front[i] == all[i]);
                assert(front.contains(all[i]));
            }
        }
    }
}

impl SecretMasker {
    #[verifier::type_invariant]
    spec fn well_formed(&self) -> bool {
        self@.wf()
    }

    /// The configuration for `modulo`, where the parties given, each taken
    /// once, outnumber the degree.
    fn new(modulo: EncodedModulo, polynomial_degree: u64, parties: Vec<PartyId>) -> (made:
        Result<SecretMasker, ValueError>)
        ensures
            polynomial_degree < without_repeats(parties_view(parties@)).len() ==> made.is_ok()
                && made->Ok_0@ == (MaskerView {
                modulo,
                polynomial_degree,
                parties: without_repeats(parties_view(parties@)),
            }) && made->Ok_0@.wf(),
            polynomial_degree >= without_repeats(parties_view(parties@)).len() ==> made == Err::<
                SecretMasker,
                ValueError,
            >(ValueError::MaskerConstruction),
    {
        let ghost ids = parties_view(parties@);
        let mut kept: Vec<PartyId> = Vec::new();
        let mut i: usize = 0;
        assert(ids.take(0) =~= Seq::<Seq<u8>>::empty());
        while i < parties.len()
            invariant
                i <= parties.len(),
                ids == parties_view(parties@),
                parties_view(kept@) == without_repeats(ids.take(i as int)),
                kept@.len() <= i,
            decreases parties.len() - i,
        {
            assert(ids.take(i + 1).drop_last() =~= ids.take(i as int));
            assert(ids.take(i + 1).last() == parties@[i as int]@);
            if position_of(&kept, &parties[i]).is_none() {
                let ghost before = parties_view(kept@);
                kept.push(parties[i].duplicate());
                assert(parties_view(kept@) =~= before.push(parties@[i as int]@));
            }
            i = i + 1;
        }
        assert(ids.take(i as int) =~= ids);
        proof {
            lemma_without_repeats(ids);
        }
        if polynomial_degree < kept.len() as u64 {
            Ok(SecretMasker { modulo, polynomial_degree, parties: kept })
        } else {
            Err(ValueError::MaskerConstruction)
        }
    }

    /// A masker that uses the 64 bit safe prime field, where the parties
    /// given, each taken once, outnumber the degree.
    pub fn new_64_bit_safe_prime(polynomial_degree: u64, parties: Vec<PartyId>) -> (made: Result<
        SecretMasker,
        ValueError,
    >)
        ensures
            polynomial_degree < without_repeats(parties_view(parties@)).len() ==> made.is_ok()
                && made->Ok_0@ == (MaskerView {
                modulo: EncodedModulo::U64SafePrime,
                polynomial_degree,
                parties: without_repeats(parties_view(parties@)),
            }) && made->Ok_0@.wf(),
            polynomial_degree >= without_repeats(parties_view(parties@)).len() ==> made == Err::<
                SecretMasker,
                ValueError,
            >(ValueError::MaskerConstruction),
    {
        SecretMasker::new(EncodedModulo::U64SafePrime, polynomial_degree, parties)
    }

    /// A masker that uses the 128 bit safe prime field, where the parties
    /// given, each taken once, outnumber the degree.
    pub fn new_128_bit_safe_prime(polynomial_degree: u64, parties: Vec<PartyId>) -> (made: Result<
        SecretMasker,
        ValueError,
    >)
        ensures
            polynomial_degree < without_repeats(parties_view(parties@)).len() ==> made.is_ok()
                && made->Ok_0@ == (MaskerView {
                modulo: EncodedModulo::U128SafePrime,
                polynomial_degree,
                parties: without_repeats(parties_view(parties@)),
            }) && made->Ok_0@.wf(),
            polynomial_degree >= without_repeats(parties_view(parties@)).len() ==> made == Err::<
                SecretMasker,
                ValueError,
            >(ValueError::MaskerConstruction),
    {
        SecretMasker::new(EncodedModulo::U128SafePrime, polynomial_degree, parties)
    }

    /// A masker that uses the 256 bit safe prime field, where the parties
    /// given, each taken once, outnumber the degree.
    pub fn new_256_bit_safe_prime(polynomial_degree: u64, parties: Vec<PartyId>) -> (made: Result<
        SecretMasker,
        ValueError,
    >)
        ensures
            polynomial_degree < without_repeats(parties_view(parties@)).len() ==> made.is_ok()
                && made->Ok_0@ == (MaskerView {
                modulo: EncodedModulo::U256SafePrime,
                polynomial_degree,
                parties: without_repeats(parties_view(parties@)),
            }) && made->Ok_0@.wf(),
            polynomial_degree >= without_repeats(parties_view(parties@)).len() ==> made == Err::<
                SecretMasker,
                ValueError,
            >(ValueError::MaskerConstruction),
    {
        SecretMasker::new(EncodedModulo::U256SafePrime, polynomial_degree, parties)
    }

    /// The prime field of the masker.
    pub fn modulo(&self) -> (modulo: EncodedModulo)
        ensures
            modulo == self@.modulo,
    {
        self.modulo
    }

    /// The degree of the sharing polynomial.
    pub fn polynomial_degree(&self) -> (degree: u64)
        ensures
            degree == self@.polynomial_degree,
    {
        self.polynomial_degree
    }

    /// The parties, each once, in the order in which they first came.
    pub fn parties(&self) -> (parties: Vec<PartyId>)
        ensures
            parties_view(parties@) == self@.parties,
            self@.wf(),
    {
        proof {
            use_type_invariant(self);
        }
        let mut parties: Vec<PartyId> = Vec::new();
        let mut i: usize = 0;
        while i < self.parties.len()
            invariant
                i <= self.parties.len(),
                parties@.len() == i,
                forall|k: int| 0 <= k < i ==> (#[trigger] parties@[k])@ == self.parties@[k]@,
            decreases self.parties.len() - i,
        {
            parties.push(self.parties[i].duplicate());
            i = i + 1;
        }
        assert(parties_view(parties@) =~= parties_view(self.parties@));
        parties
    }

    /// Classifies the given cleartext values: how many of them are freshly
    /// shared, how many are public, how many are private keys and how many
    /// are signatures. The four counts add up to the number of values.
    pub fn classify_values(&self, values: &NadaValues) -> (totals: NadaValuesClassification)
        ensures
            totals.shares == count_of(values@, Category::Share),
            totals.public == count_of(values@, Category::Public),
            totals.ecdsa_private_key_shares == count_of(values@, Category::PrivateKeyShare),
            totals.ecdsa_signature_shares == count_of(values@, Category::SignatureShare),
            totals.shares + totals.public + totals.ecdsa_private_key_shares
                + totals.ecdsa_signature_shares == values@.len(),
    {
        let count = values.length();
        let mut totals = NadaValuesClassification {
            shares: 0,
            public: 0,
            ecdsa_private_key_shares: 0,
            ecdsa_signature_shares: 0,
        };
        let mut i: usize = 0;
        assert(values@.take(0) =~= Seq::<(Seq<char>, ClearValue)>::empty());
        while i < count
            invariant
                i <= count,
                count == values@.len(),
                totals.shares == count_of(values@.take(i as int), Category::Share),
                totals.public == count_of(values@.take(i as int), Category::Public),
                totals.ecdsa_private_key_shares == count_of(
                    values@.take(i as int),
                    Category::PrivateKeyShare,
                ),
                totals.ecdsa_signature_shares == count_of(
                    values@.take(i as int),
                    Category::SignatureShare,
                ),
            decreases count - i,
        {
            proof {
                lemma_counts_cover(values@.take(i as int));
                assert(values@.take(i + 1).drop_last() =~= values@.take(i as int));
                assert(values@.take(i + 1).last() == values@[i as int]);
            }
            match category_of(values.value_at(i)) {
                Category::Share => {
                    totals.shares = totals.shares + 1;
                },
                Category::Public => {
                    totals.public = totals.public + 1;
                },
                Category::PrivateKeyShare => {
                    totals.ecdsa_private_key_shares = totals.ecdsa_private_key_shares + 1;
                },
                Category::SignatureShare => {
                    totals.ecdsa_signature_shares = totals.ecdsa_signature_shares + 1;
                },
            }
            i = i + 1;
        }
        proof {
            assert(values@.take(i as int) =~= values@);
            lemma_counts_cover(values@);
        }
        totals
    }
}

/// The variant of what each participant holds of a value after masking.
pub fn masked_type_of(value: &NadaValue) -> (variant: EncryptedType)
    ensures
        variant == value@.masked_variant(),
{
    match value.variant() {
        ClearType::Integer => EncryptedType::Integer,
        ClearType::UnsignedInteger => EncryptedType::UnsignedInteger,
        ClearType::Boolean => EncryptedType::Boolean,
        ClearType::SecretInteger => EncryptedType::ShamirShareInteger,
        ClearType::SecretUnsignedInteger => EncryptedType::ShamirShareUnsignedInteger,
        ClearType::SecretBoolean => EncryptedType::ShamirShareBoolean,
        ClearType::SecretBlob => EncryptedType::SecretBlob,
        ClearType::EcdsaPrivateKey => EncryptedType::EcdsaPrivateKey,
        ClearType::EcdsaDigestMessage => EncryptedType::EcdsaDigestMessage,
        ClearType::EcdsaSignature => EncryptedType::EcdsaSignature,
        ClearType::EcdsaPublicKey => EncryptedType::EcdsaPublicKey,
        ClearType::EddsaPrivateKey => EncryptedType::EddsaPrivateKey,
        ClearType::EddsaMessage => EncryptedType::EddsaMessage,
        ClearType::EddsaSignature => EncryptedType::EddsaSignature,
        ClearType::EddsaPublicKey => EncryptedType::EddsaPublicKey,
        ClearType::StoreId => EncryptedType::StoreId,
    }
}

/// The kind that a value falls into when it is masked.
pub fn category_of(value: &NadaValue) -> (category: Category)
    ensures
        category == value@.category(),
{
    match value.variant() {
        ClearType::SecretInteger
        | ClearType::SecretUnsignedInteger
        | ClearType::SecretBoolean
        | ClearType::SecretBlob => Category::Share,
        ClearType::EcdsaPrivateKey | ClearType::EddsaPrivateKey => Category::PrivateKeyShare,
        ClearType::EcdsaSignature | ClearType::EddsaSignature => Category::SignatureShare,
        _ => Category::Public,
    }
}

/// Masking keeps the tag of every value but a secret number or boolean,
/// which turns into a share of it.
pub proof fn lemma_masking_keeps_the_tag(value: ClearValue)
    ensures
        value.variant() != ClearType::SecretInteger && value.variant()
            != ClearType::SecretUnsignedInteger && value.variant() != ClearType::SecretBoolean
            ==> value.masked_variant().tag() == value.type_tag(),
        value.variant() == ClearType::SecretInteger ==> value.masked_variant()
            == EncryptedType::ShamirShareInteger,
        value.variant() == ClearType::SecretUnsignedInteger ==> value.masked_variant()
            == EncryptedType::ShamirShareUnsignedInteger,
        value.variant() == ClearType::SecretBoolean ==> value.masked_variant()
            == EncryptedType::ShamirShareBoolean,
{
}

} // verus!
