//! The jar of participant shares: one contribution from each configured
//! participant, on which the participants agree.

use crate::encrypted::{EncodedModulo, EncryptedNadaValues, EncryptedType, EncryptedValue};
use crate::errors::{JarFault, ValueError};
use crate::masker::{
    contributors, count_of, masked_type_of, no_repeats, parties_view, position_of, shares_view,
    Category, PartyShares, PartySharesView, SecretMasker,
};
use crate::name_map::{entries_map, has_name, lemma_entry_in_map, names_distinct, place_of};
use crate::values::{ClearValue, NadaValues};
use vstd::prelude::*;

verus! {

/// Whether `j` is the first position among `ids` whose identifier occurs
/// before it.
pub open spec fn is_first_repeat(ids: Seq<Seq<u8>>, j: int) -> bool {
    &&& 0 <= j < ids.len()
    &&& exists|i: int| 0 <= i < j && ids[i] == ids[j]
    &&& no_repeats(ids.take(j))
}

/// Whether `c` is the first position among `ids` whose identifier is not
/// among `known`.
pub open spec fn is_first_outside(ids: Seq<Seq<u8>>, known: Seq<Seq<u8>>, c: int) -> bool {
    &&& 0 <= c < ids.len()
    &&& !known.contains(ids[c])
    &&& forall|k: int| 0 <= k < c ==> known.contains(#[trigger] ids[k])
}

/// Whether every identifier of `ids` is among `known`.
pub open spec fn all_inside(ids: Seq<Seq<u8>>, known: Seq<Seq<u8>>) -> bool {
    forall|k: int| 0 <= k < ids.len() ==> known.contains(#[trigger] ids[k])
}

impl EncryptedType {
    /// Whether every participant holds the same of a value of the
    /// variant: the public numbers and booleans, digests, public keys,
    /// messages and identifiers.
    pub open spec fn is_public(self) -> bool {
        match self {
            EncryptedType::Integer
            | EncryptedType::UnsignedInteger
            | EncryptedType::Boolean
            | EncryptedType::EcdsaDigestMessage
            | EncryptedType::EcdsaPublicKey
            | EncryptedType::EddsaMessage
            | EncryptedType::EddsaPublicKey
            | EncryptedType::StoreId => true,
            _ => false,
        }
    }

    /// Whether every participant holds the same of a value of the variant.
    pub fn holds_public(&self) -> (public: bool)
        ensures
            public == self.is_public(),
    {
        match self {
            EncryptedType::Integer
            | EncryptedType::UnsignedInteger
            | EncryptedType::Boolean
            | EncryptedType::EcdsaDigestMessage
            | EncryptedType::EcdsaPublicKey
            | EncryptedType::EddsaMessage
            | EncryptedType::EddsaPublicKey
            | EncryptedType::StoreId => true,
            _ => false,
        }
    }
}

/// Whether `other` agrees with entry `k` of `first`: it has a value of
/// that name, of the same variant, and the same value where the variant is
/// public.
pub open spec fn entry_agrees(
    first: Seq<(Seq<char>, EncryptedValue)>,
    other: Seq<(Seq<char>, EncryptedValue)>,
    k: int,
) -> bool {
    &&& has_name(other, first[k].0)
    &&& entries_map(other)[first[k].0].variant() == first[k].1.variant()
    &&& first[k].1.variant().is_public() ==> entries_map(other)[first[k].0] == first[k].1
}

/// Whether `other` agrees with `first`: as many values, under the same
/// names, of the same variants, and equal where public.
pub open spec fn contribution_agrees(
    first: Seq<(Seq<char>, EncryptedValue)>,
    other: Seq<(Seq<char>, EncryptedValue)>,
) -> bool {
    &&& other.len() == first.len()
    &&& forall|k: int| 0 <= k < first.len() ==> entry_agrees(first, other, k)
}

/// Whether every contribution agrees with the first.
pub open spec fn all_agree(contributions: Seq<PartySharesView>) -> bool {
    forall|c: int|
        0 <= c < contributions.len() ==> contribution_agrees(
            contributions[0].shares,
            (#[trigger] contributions[c]).shares,
        )
}

/// Whether `k` is where `other` first departs from `first`: the first
/// entry that it does not agree with, or the number of entries where it
/// agrees with all and only their number differs.
pub open spec fn is_first_departure(
    first: Seq<(Seq<char>, EncryptedValue)>,
    other: Seq<(Seq<char>, EncryptedValue)>,
    k: int,
) -> bool {
    &&& 0 <= k <= first.len()
    &&& forall|m: int| 0 <= m < k ==> entry_agrees(first, other, m)
    &&& if k < first.len() {
        !entry_agrees(first, other, k)
    } else {
        other.len() != first.len()
    }
}

/// Where `other` first departs from `first`, if it does.
fn departure(first: &EncryptedNadaValues, other: &EncryptedNadaValues) -> (place: Option<usize>)
    ensures
        place.is_none() == contribution_agrees(first@, other@),
        place matches Some(k) ==> is_first_departure(first@, other@, k as int),
{
    let count = first.length();
    let mut k: usize = 0;
    while k < count
        invariant
            k <= count,
            count == first@.len(),
            forall|m: int| 0 <= m < k ==> entry_agrees(first@, other@, m),
        decreases count - k,
    {
        let agrees = match other.get(first.name_at(k)) {
            None => false,
            Some(value) => {
                let mine = first.value_at(k);
                if mine.to_type() != value.to_type() {
                    false
                } else if mine.to_type().holds_public() {
                    mine.same_as(value)
                } else {
                    true
                }
            },
        };
        if !agrees {
            assert(!entry_agrees(first@, other@, k as int));
            return Some(k);
        }
        k = k + 1;
    }
    if other.length() != count {
        Some(count)
    } else {
        None
    }
}

/// A set of contributions to reconstruct from, no party twice.
#[derive(Debug, PartialEq, Eq)]
pub struct PartyJar {
    elements: Vec<PartyShares>,
}

impl View for PartyJar {
    type V = Seq<PartySharesView>;

    closed spec fn view(&self) -> Seq<PartySharesView> {
        shares_view(self.elements@)
    }
}

impl PartyJar {
    /// No party contributes twice.
    pub open spec fn wf(&self) -> bool {
        no_repeats(contributors(self@))
    }

    #[verifier::type_invariant]
    spec fn each_party_once(&self) -> bool {
        self.wf()
    }

    /// Whether the party of contribution `j` contributed before.
    fn seen_before(elements: &Vec<PartyShares>, j: usize) -> (seen: bool)
        requires
            j < elements@.len(),
        ensures
            seen == exists|i: int|
                0 <= i < j && contributors(shares_view(elements@))[i] == contributors(
                    shares_view(elements@),
                )[j as int],
    {
        let ghost ids = contributors(shares_view(elements@));
        let mut i: usize = 0;
        while i < j
            invariant
                i <= j < elements@.len(),
                ids == contributors(shares_view(elements@)),
                forall|m: int| 0 <= m < i ==> ids[m] != ids[j as int],
            decreases j - i,
        {
            if elements[i].party_ref().same_as(elements[j].party_ref()) {
                assert(ids[i as int] == ids[j as int]);
                return true;
            }
            i = i + 1;
        }
        false
    }

    /// The jar of the contributions given, where no party contributes
    /// twice; the error names the first contribution of a party that
    /// contributed before.
    pub fn new_with_elements(elements: Vec<PartyShares>) -> (made: Result<PartyJar, ValueError>)
        ensures
            match made {
                Ok(jar) => jar@ == shares_view(elements@) && jar.wf(),
                Err(error) => exists|j: int|
                    is_first_repeat(contributors(shares_view(elements@)), j) && error
                        == (ValueError::JarValidation {
                        fault: JarFault::Duplicate { contribution: j as usize },
                    }),
            },
            made.is_ok() == no_repeats(contributors(shares_view(elements@))),
    {
        let ghost ids = contributors(shares_view(elements@));
        let mut j: usize = 0;
        while j < elements.len()
            invariant
                j <= elements.len(),
                ids == contributors(shares_view(elements@)),
                no_repeats(ids.take(j as int)),
            decreases elements.len() - j,
        {
            if PartyJar::seen_before(&elements, j) {
                assert(is_first_repeat(ids, j as int));
                return Err(
                    ValueError::JarValidation { fault: JarFault::Duplicate { contribution: j } },
                );
            }
            proof {
                let next = ids.take(j + 1);
                assert forall|a: int, b: int| 0 <= a < b < next.len() implies next[a]
                    != next[b] by {
                    if b < j {
                        assert(ids.take(j as int)[a] != ids.take(j as int)[b]);
                    }
                }
            }
            j = j + 1;
        }
        assert(ids.take(j as int) =~= ids);
        Ok(PartyJar { elements })
    }

    /// The number of contributions.
    pub fn len(&self) -> (count: usize)
        ensures
            count == self@.len(),
            self.wf(),
    {
        proof {
            use_type_invariant(self);
        }
        self.elements.len()
    }

    /// The contribution at position `i`.
    pub fn element(&self, i: usize) -> (shares: &PartyShares)
        requires
            i < self@.len(),
        ensures
            shares@ == self@[i as int],
    {
        &self.elements[i]
    }

    /// Checks that the participants agree: every contribution has as many
    /// values as the first, under the same names and of the same variants,
    /// and the same value where the variant is public. The error names
    /// the first contribution that departs from the first one, and where
    /// it first does: the position of an entry of the first contribution,
    /// or their number where only the number of values differs.
    pub fn check_agreement(&self) -> (checked: Result<(), ValueError>)
        ensures
            checked.is_ok() == all_agree(self@),
            checked matches Err(error) ==> exists|c: int, k: int|
                {
                    &&& 0 < c < self@.len()
                    &&& forall|b: int|
                        0 <= b < c ==> contribution_agrees(
                            self@[0].shares,
                            (#[trigger] self@[b]).shares,
                        )
                    &&& is_first_departure(self@[0].shares, self@[c].shares, k)
                    &&& error == (ValueError::ReconstructionMismatch {
                        contribution: c as usize,
                        entry: k as usize,
                    })
                },
    {
        let count = self.elements.len();
        if count == 0 {
            return Ok(());
        }
        let first = self.elements[0].shares_ref();
        let entries = first.length();
        let mut c: usize = 0;
        while c < count
            invariant
                c <= count,
                first.wf(),
                0 < count == self@.len(),
                count == self.elements@.len(),
                first@ == self@[0].shares,
                forall|b: int|
                    0 <= b < c ==> contribution_agrees(
                        self@[0].shares,
                        (#[trigger] self@[b]).shares,
                    ),
            decreases count - c,
        {
            match departure(first, self.elements[c].shares_ref()) {
                Some(k) => {
                    assert(!contribution_agrees(self@[0].shares, self@[c as int].shares));
                    assert(c > 0) by {
                        if c == 0 {
                            lemma_agrees_with_itself(first);
                        }
                    }
                    assert(is_first_departure(self@[0].shares, self@[c as int].shares, k as int));
                    return Err(ValueError::ReconstructionMismatch { contribution: c, entry: k });
                },
                None => {},
            }
            c = c + 1;
        }
        Ok(())
    }
}

/// A set of values agrees with itself.
proof fn lemma_agrees_with_itself(values: &EncryptedNadaValues)
    requires
        values.wf(),
    ensures
        contribution_agrees(values@, values@),
{
    let entries = values@;
    assert forall|k: int| 0 <= k < entries.len() implies entry_agrees(entries, entries, k) by {
        assert(entries[k].0 == entries[k].0);
        assert(has_name(entries, entries[k].0));
        let p = place_of(entries, entries[k].0);
        if p < k {
            assert(entries[p].0 != entries[k].0);
        } else if k < p {
            assert(entries[k].0 != entries[p].0);
        }
    }
}

impl SecretMasker {
    /// Checks that the jar holds the contributions of exactly the
    /// configured parties. The error names the first contribution of a
    /// party that is not configured, or else the first configured party
    /// that contributed nothing.
    pub fn check_jar(&self, jar: &PartyJar) -> (checked: Result<(), ValueError>)
        ensures
            checked.is_ok() == (all_inside(contributors(jar@), self@.parties) && all_inside(
                self@.parties,
                contributors(jar@),
            )),
            checked matches Err(error) ==> (exists|c: int|
                is_first_outside(contributors(jar@), self@.parties, c) && error
                    == (ValueError::JarValidation {
                    fault: JarFault::Unexpected { contribution: c as usize },
                })) || (all_inside(contributors(jar@), self@.parties) && exists|p: int|
                is_first_outside(self@.parties, contributors(jar@), p) && error
                    == (ValueError::JarValidation {
                    fault: JarFault::Missing { participant: p as usize },
                })),
    {
        let parties = self.parties();
        let ghost known = self@.parties;
        let ghost ids = contributors(jar@);
        let count = jar.len();
        let mut c: usize = 0;
        while c < count
            invariant
                c <= count,
                count == jar@.len(),
                ids == contributors(jar@),
                known == self@.parties,
                parties_view(parties@) == known,
                forall|k: int| 0 <= k < c ==> known.contains(#[trigger] ids[k]),
            decreases count - c,
        {
            if position_of(&parties, jar.element(c).party_ref()).is_none() {
                assert(is_first_outside(ids, known, c as int));
                return Err(
                    ValueError::JarValidation { fault: JarFault::Unexpected { contribution: c } },
                );
            }
            c = c + 1;
        }
        assert(all_inside(ids, known));
        let mut p: usize = 0;
        while p < parties.len()
            invariant
                p <= parties.len(),
                count == jar@.len(),
                ids == contributors(jar@),
                known == self@.parties,
                parties_view(parties@) == known,
                all_inside(ids, known),
                forall|k: int| 0 <= k < p ==> ids.contains(#[trigger] known[k]),
            decreases parties.len() - p,
        {
            let mut found = false;
            let mut c: usize = 0;
            while c < count
                invariant
                    c <= count,
                    p < parties.len(),
                    count == jar@.len(),
                    ids == contributors(jar@),
                    parties_view(parties@) == known,
                    found == exists|k: int| 0 <= k < c && ids[k] == known[p as int],
                decreases count - c,
            {
                if jar.element(c).party_ref().same_as(&parties[p]) {
                    assert(ids[c as int] == known[p as int]);
                    found = true;
                }
                c = c + 1;
            }
            if !found {
                assert(!ids.contains(known[p as int]));
                assert(is_first_outside(known, ids, p as int));
                return Err(
                    ValueError::JarValidation { fault: JarFault::Missing { participant: p } },
                );
            }
            let ghost k = choose|k: int| 0 <= k < count && ids[k] == known[p as int];
            assert(ids.contains(known[p as int]));
            p = p + 1;
        }
        Ok(())
    }
}

/// Whether `shares` hold entry `k` of `values` as masking in the field of
/// `modulo` leaves it: under the same name, in the variant that masking
/// gives, with numbers of that field.
pub open spec fn entry_is_masked(
    values: Seq<(Seq<char>, ClearValue)>,
    shares: Seq<(Seq<char>, EncryptedValue)>,
    modulo: EncodedModulo,
    k: int,
) -> bool {
    &&& has_name(shares, values[k].0)
    &&& entries_map(shares)[values[k].0].variant() == values[k].1.masked_variant()
    &&& entries_map(shares)[values[k].0].is_in_field(modulo)
}

/// Whether `shares` have the shape that masking `values` in the field of
/// `modulo` gives one participant: as many entries, under the same names,
/// each in the variant that masking gives.
pub open spec fn is_masked_shape(
    values: Seq<(Seq<char>, ClearValue)>,
    shares: Seq<(Seq<char>, EncryptedValue)>,
    modulo: EncodedModulo,
) -> bool {
    &&& shares.len() == values.len()
    &&& forall|k: int| 0 <= k < values.len() ==> entry_is_masked(values, shares, modulo, k)
}

/// Whether `k` is where `shares` first depart from the shape that masking
/// `values` gives: the first entry that they do not hold so, or the number
/// of entries where they hold all so and only their number differs.
pub open spec fn is_first_unmasked(
    values: Seq<(Seq<char>, ClearValue)>,
    shares: Seq<(Seq<char>, EncryptedValue)>,
    modulo: EncodedModulo,
    k: int,
) -> bool {
    &&& 0 <= k <= values.len()
    &&& forall|m: int| 0 <= m < k ==> entry_is_masked(values, shares, modulo, m)
    &&& if k < values.len() {
        !entry_is_masked(values, shares, modulo, k)
    } else {
        shares.len() != values.len()
    }
}

/// Whether every contribution has the shape that masking `values` gives.
pub open spec fn all_masked(
    values: Seq<(Seq<char>, ClearValue)>,
    contributions: Seq<PartySharesView>,
    modulo: EncodedModulo,
) -> bool {
    forall|c: int|
        0 <= c < contributions.len() ==> is_masked_shape(
            values,
            (#[trigger] contributions[c]).shares,
            modulo,
        )
}

/// Where `shares` first depart from the shape that masking `values`
/// gives, if they do.
fn unmasked_place(values: &NadaValues, shares: &EncryptedNadaValues, modulo: EncodedModulo) -> (place:
    Option<usize>)
    ensures
        place.is_none() == is_masked_shape(values@, shares@, modulo),
        place matches Some(k) ==> is_first_unmasked(values@, shares@, modulo, k as int),
{
    let count = values.length();
    let mut k: usize = 0;
    while k < count
        invariant
            k <= count,
            count == values@.len(),
            forall|m: int| 0 <= m < k ==> entry_is_masked(values@, shares@, modulo, m),
        decreases count - k,
    {
        let masked = match shares.get(values.name_at(k)) {
            None => false,
            Some(share) => share.to_type() == masked_type_of(values.value_at(k)) && share.in_field(
                modulo,
            ),
        };
        if !masked {
            assert(!entry_is_masked(values@, shares@, modulo, k as int));
            return Some(k);
        }
        k = k + 1;
    }
    if shares.length() != count {
        Some(count)
    } else {
        None
    }
}

impl SecretMasker {
    /// Makes the jar to reconstruct from: the contributions given, where
    /// no party contributes twice, the parties are exactly the configured
    /// ones and the participants agree. Of the four checks the first that
    /// fails gives the error, which names the first contribution, party or
    /// entry at fault.
    pub fn collect_jar(&self, shares: Vec<PartyShares>) -> (made: Result<PartyJar, ValueError>)
        ensures
            made.is_ok() == is_accepted(shares_view(shares@), self@.parties),
            match made {
                Ok(jar) => {
                    &&& jar@ == shares_view(shares@)
                    &&& no_repeats(contributors(jar@))
                    &&& all_inside(contributors(jar@), self@.parties)
                    &&& all_inside(self@.parties, contributors(jar@))
                    &&& all_agree(jar@)
                },
                Err(error) => {
                    let given = shares_view(shares@);
                    let ids = contributors(given);
                    ||| exists|j: int|
                        is_first_repeat(ids, j) && error == (ValueError::JarValidation {
                            fault: JarFault::Duplicate { contribution: j as usize },
                        })
                    ||| no_repeats(ids) && exists|c: int|
                        is_first_outside(ids, self@.parties, c) && error
                            == (ValueError::JarValidation {
                            fault: JarFault::Unexpected { contribution: c as usize },
                        })
                    ||| no_repeats(ids) && all_inside(ids, self@.parties) && exists|p: int|
                        is_first_outside(self@.parties, ids, p) && error
                            == (ValueError::JarValidation {
                            fault: JarFault::Missing { participant: p as usize },
                        })
                    ||| no_repeats(ids) && all_inside(ids, self@.parties) && all_inside(
                        self@.parties,
                        ids,
                    ) && exists|c: int, k: int|
                        {
                            &&& 0 < c < given.len()
                            &&& forall|b: int|
                                0 <= b < c ==> contribution_agrees(
                                    given[0].shares,
                                    (#[trigger] given[b]).shares,
                                )
                            &&& is_first_departure(given[0].shares, given[c].shares, k)
                            &&& error == (ValueError::ReconstructionMismatch {
                                contribution: c as usize,
                                entry: k as usize,
                            })
                        }
                },
            },
    {
        let jar = PartyJar::new_with_elements(shares)?;
        self.check_jar(&jar)?;
        jar.check_agreement()?;
        Ok(jar)
    }

    /// Checks that every contribution has the shape that masking `values`
    /// in the field of this masker gives: as many entries as there are
    /// values, under the same names, each in the variant that masking
    /// gives its value, with numbers of the field. The error names the
    /// first contribution that departs from it, and where it first does:
    /// the position of a value, or the number of values where only the
    /// number of entries differs.
    pub fn check_masked(&self, values: &NadaValues, jar: &PartyJar) -> (checked: Result<
        (),
        ValueError,
    >)
        ensures
            checked.is_ok() == all_masked(values@, jar@, self@.modulo),
            checked matches Err(error) ==> exists|c: int, k: int|
                {
                    &&& 0 <= c < jar@.len()
                    &&& forall|b: int|
                        0 <= b < c ==> is_masked_shape(
                            values@,
                            (#[trigger] jar@[b]).shares,
                            self@.modulo,
                        )
                    &&& is_first_unmasked(values@, jar@[c].shares, self@.modulo, k)
                    &&& error == (ValueError::ReconstructionMismatch {
                        contribution: c as usize,
                        entry: k as usize,
                    })
                },
    {
        let modulo = self.modulo();
        let count = jar.len();
        let mut c: usize = 0;
        while c < count
            invariant
                c <= count,
                count == jar@.len(),
                modulo == self@.modulo,
                forall|b: int|
                    0 <= b < c ==> is_masked_shape(values@, (#[trigger] jar@[b]).shares, modulo),
            decreases count - c,
        {
            match unmasked_place(values, jar.element(c).shares_ref(), modulo) {
                Some(k) => {
                    assert(!is_masked_shape(values@, jar@[c as int].shares, modulo));
                    assert(is_first_unmasked(values@, jar@[c as int].shares, modulo, k as int));
                    return Err(ValueError::ReconstructionMismatch { contribution: c, entry: k });
                },
                None => {},
            }
            c = c + 1;
        }
        Ok(())
    }
}

impl EncryptedType {
    /// The kind of cleartext value that a participant holds in a value of
    /// the variant.
    pub open spec fn category(self) -> Category {
        match self {
            EncryptedType::SecretInteger
            | EncryptedType::SecretUnsignedInteger
            | EncryptedType::SecretBoolean
            | EncryptedType::ShamirShareInteger
            | EncryptedType::ShamirShareUnsignedInteger
            | EncryptedType::ShamirShareBoolean
            | EncryptedType::SecretBlob => Category::Share,
            EncryptedType::EcdsaPrivateKey | EncryptedType::EddsaPrivateKey =>
                Category::PrivateKeyShare,
            EncryptedType::EcdsaSignature | EncryptedType::EddsaSignature =>
                Category::SignatureShare,
            _ => Category::Public,
        }
    }
}

/// How many of the values that a participant holds fall into `category`.
pub open spec fn held_count(shares: Seq<(Seq<char>, EncryptedValue)>, category: Category) -> nat
    decreases shares.len(),
{
    if shares.len() == 0 {
        0
    } else {
        held_count(shares.drop_last(), category) + if shares.last().1.variant().category()
            == category {
            1nat
        } else {
            0nat
        }
    }
}

/// Taking one entry away lowers the count of its kind by one, and no
/// other.
proof fn lemma_held_count_without(
    shares: Seq<(Seq<char>, EncryptedValue)>,
    p: int,
    category: Category,
)
    requires
        0 <= p < shares.len(),
    ensures
        held_count(shares, category) == held_count(shares.remove(p), category)
            + if shares[p].1.variant().category() == category {
            1nat
        } else {
            0nat
        },
    decreases shares.len(),
{
    if p == shares.len() - 1 {
        assert(shares.remove(p) =~= shares.drop_last());
    } else {
        lemma_held_count_without(shares.drop_last(), p, category);
        assert(shares.remove(p).drop_last() =~= shares.drop_last().remove(p));
        assert(shares.remove(p).last() == shares.last());
    }
}

/// Taking one entry away leaves the names distinct, and what the mapping
/// holds under every other name.
proof fn lemma_entries_without<T>(entries: Seq<(Seq<char>, T)>, p: int)
    requires
        names_distinct(entries),
        0 <= p < entries.len(),
    ensures
        names_distinct(entries.remove(p)),
        forall|name: Seq<char>|
            name != entries[p].0 ==> has_name(entries.remove(p), name) == has_name(entries, name),
        forall|name: Seq<char>|
            name != entries[p].0 && has_name(entries, name) ==> #[trigger] entries_map(
                entries.remove(p),
            )[name] == entries_map(entries)[name],
{
    let rest = entries.remove(p);
    assert forall|i: int, j: int| 0 <= i < j < rest.len() implies (#[trigger] rest[i]).0 != (
    #[trigger] rest[j]).0 by {
        let a = if i < p {
            i
        } else {
            i + 1
        };
        let b = if j < p {
            j
        } else {
            j + 1
        };
        assert(rest[i] == entries[a]);
        assert(rest[j] == entries[b]);
        assert(entries[a].0 != entries[b].0);
    }
    assert forall|name: Seq<char>| name != entries[p].0 implies has_name(rest, name) == has_name(
        entries,
        name,
    ) by {
        if has_name(rest, name) {
            let i = place_of(rest, name);
            let a = if i < p {
                i
            } else {
                i + 1
            };
            assert(entries[a].0 == name);
        }
        if has_name(entries, name) {
            let a = place_of(entries, name);
            let i = if a < p {
                a
            } else {
                a - 1
            };
            assert(rest[i].0 == name);
        }
    }
    assert forall|name: Seq<char>| name != entries[p].0 && has_name(entries, name) implies #[trigger] entries_map(
        rest,
    )[name] == entries_map(entries)[name] by {
        let a = place_of(entries, name);
        let i = if a < p {
            a
        } else {
            a - 1
        };
        assert(rest[i] == entries[a]);
        lemma_entry_in_map(rest, i);
    }
}

/// What the classification counts is what every participant holds after
/// masking: where shares have the shape that masking the values gives,
/// as many of them fall into each kind as there are values of that kind.
pub proof fn lemma_classification_matches_masking(
    values: Seq<(Seq<char>, ClearValue)>,
    shares: Seq<(Seq<char>, EncryptedValue)>,
    modulo: EncodedModulo,
    category: Category,
)
    requires
        names_distinct(values),
        names_distinct(shares),
        is_masked_shape(values, shares, modulo),
    ensures
        held_count(shares, category) == count_of(values, category),
    decreases values.len(),
{
    if values.len() > 0 {
        let n = values.len() - 1;
        let last = values[n];
        assert(entry_is_masked(values, shares, modulo, n));
        let p = place_of(shares, last.0);
        lemma_entry_in_map(shares, p);
        let fewer = values.drop_last();
        let rest = shares.remove(p);
        lemma_entries_without(shares, p);
        assert forall|k: int| 0 <= k < fewer.len() implies entry_is_masked(
            fewer,
            rest,
            modulo,
            k,
        ) by {
            assert(entry_is_masked(values, shares, modulo, k));
            assert(values[k].0 != values[n].0);
            assert(fewer[k] == values[k]);
        }
        assert forall|i: int, j: int| 0 <= i < j < fewer.len() implies (#[trigger] fewer[i]).0 != (
        #[trigger] fewer[j]).0 by {
            assert(values[i].0 != values[j].0);
        }
        lemma_classification_matches_masking(fewer, rest, modulo, category);
        lemma_held_count_without(shares, p, category);
    }
}

/// Whether the contributions make a jar for `parties`: no party twice,
/// exactly the parties given, and participants that agree.
pub open spec fn is_accepted(contributions: Seq<PartySharesView>, parties: Seq<Seq<u8>>) -> bool {
    &&& no_repeats(contributors(contributions))
    &&& all_inside(contributors(contributions), parties)
    &&& all_inside(parties, contributors(contributions))
    &&& all_agree(contributions)
}

/// Whether every contribution holds each name once.
pub open spec fn all_named_once(contributions: Seq<PartySharesView>) -> bool {
    forall|c: int|
        0 <= c < contributions.len() ==> names_distinct((#[trigger] contributions[c]).shares)
}

/// Whether `order` lists each position below `count` once.
pub open spec fn is_rearrangement(order: Seq<int>, count: nat) -> bool {
    &&& order.len() == count
    &&& forall|i: int| 0 <= i < count ==> 0 <= #[trigger] order[i] < count
    &&& forall|i: int, j: int| 0 <= i < j < count ==> order[i] != order[j]
    &&& forall|m: int| 0 <= m < count ==> #[trigger] order.contains(m)
}

/// The names of `entries`, in order.
pub open spec fn names_of<T>(entries: Seq<(Seq<char>, T)>) -> Seq<Seq<char>> {
    Seq::new(entries.len(), |i: int| entries[i].0)
}

/// Of two lists of as many entries, each with names that differ, the
/// second has no name that the first lacks where the first has none that
/// the second lacks.
proof fn lemma_same_names<T>(left: Seq<(Seq<char>, T)>, right: Seq<(Seq<char>, T)>)
    requires
        names_distinct(left),
        names_distinct(right),
        left.len() == right.len(),
        forall|k: int| 0 <= k < left.len() ==> has_name(right, (#[trigger] left[k]).0),
    ensures
        forall|j: int| 0 <= j < right.len() ==> has_name(left, (#[trigger] right[j]).0),
{
    let mine = names_of(left);
    let theirs = names_of(right);
    assert(mine.no_duplicates()) by {
        assert forall|i: int, j: int| 0 <= i < mine.len() && 0 <= j < mine.len() && i != j implies mine[i]
            != mine[j] by {
            if i < j {
                assert(left[i].0 != left[j].0);
            } else {
                assert(left[j].0 != left[i].0);
            }
        }
    }
    assert(theirs.no_duplicates()) by {
        assert forall|i: int, j: int|
            0 <= i < theirs.len() && 0 <= j < theirs.len() && i != j implies theirs[i]
            != theirs[j] by {
            if i < j {
                assert(right[i].0 != right[j].0);
            } else {
                assert(right[j].0 != right[i].0);
            }
        }
    }
    mine.unique_seq_to_set();
    theirs.unique_seq_to_set();
    vstd::seq_lib::seq_to_set_is_finite(mine);
    vstd::seq_lib::seq_to_set_is_finite(theirs);
    assert(mine.to_set().subset_of(theirs.to_set())) by {
        assert forall|name: Seq<char>| mine.to_set().contains(name) implies theirs.to_set().contains(
            name,
        ) by {
            assert(mine.contains(name));
            let k = choose|k: int| 0 <= k < mine.len() && mine[k] == name;
            assert(has_name(right, left[k].0));
            let j = place_of(right, left[k].0);
            assert(theirs[j] == name);
            assert(theirs.contains(name));
        }
    }
    vstd::set_lib::lemma_subset_equality(mine.to_set(), theirs.to_set());
    assert forall|j: int| 0 <= j < right.len() implies has_name(left, (#[trigger] right[j]).0) by {
        assert(theirs[j] == right[j].0);
        assert(theirs.contains(right[j].0));
        assert(theirs.to_set().contains(right[j].0));
        assert(mine.to_set().contains(right[j].0));
        assert(mine.contains(right[j].0));
        let k = choose|k: int| 0 <= k < mine.len() && mine[k] == right[j].0;
        assert(left[k].0 == right[j].0);
    }
}

/// Agreement goes both ways.
pub proof fn lemma_agreement_is_symmetric(
    left: Seq<(Seq<char>, EncryptedValue)>,
    right: Seq<(Seq<char>, EncryptedValue)>,
)
    requires
        names_distinct(left),
        names_distinct(right),
        contribution_agrees(left, right),
    ensures
        contribution_agrees(right, left),
{
    assert forall|k: int| 0 <= k < left.len() implies has_name(right, (#[trigger] left[k]).0) by {
        assert(entry_agrees(left, right, k));
    }
    lemma_same_names(left, right);
    assert forall|j: int| 0 <= j < right.len() implies entry_agrees(right, left, j) by {
        assert(has_name(left, right[j].0));
        let k = place_of(left, right[j].0);
        lemma_entry_in_map(left, k);
        lemma_entry_in_map(right, j);
        assert(entry_agrees(left, right, k));
    }
}

/// Agreement carries over from one pair to the next.
pub proof fn lemma_agreement_is_transitive(
    first: Seq<(Seq<char>, EncryptedValue)>,
    second: Seq<(Seq<char>, EncryptedValue)>,
    third: Seq<(Seq<char>, EncryptedValue)>,
)
    requires
        names_distinct(second),
        contribution_agrees(first, second),
        contribution_agrees(second, third),
    ensures
        contribution_agrees(first, third),
{
    assert forall|k: int| 0 <= k < first.len() implies entry_agrees(first, third, k) by {
        assert(entry_agrees(first, second, k));
        let j = place_of(second, first[k].0);
        lemma_entry_in_map(second, j);
        assert(entry_agrees(second, third, j));
    }
}

/// Whether a set of contributions is accepted does not depend on the
/// order in which they come: contributions that make a jar for `parties`
/// make one in any other order.
pub proof fn lemma_acceptance_ignores_order(
    left: Seq<PartySharesView>,
    right: Seq<PartySharesView>,
    order: Seq<int>,
    parties: Seq<Seq<u8>>,
)
    requires
        all_named_once(left),
        is_rearrangement(order, left.len()),
        right.len() == left.len(),
        forall|i: int| 0 <= i < right.len() ==> #[trigger] right[i] == left[order[i]],
        is_accepted(left, parties),
    ensures
        is_accepted(right, parties),
{
    let mine = contributors(left);
    let theirs = contributors(right);
    assert forall|i: int, j: int| 0 <= i < j < theirs.len() implies theirs[i] != theirs[j] by {
        assert(right[i] == left[order[i]]);
        assert(right[j] == left[order[j]]);
        if order[i] < order[j] {
            assert(mine[order[i]] != mine[order[j]]);
        } else {
            assert(mine[order[j]] != mine[order[i]]);
        }
    }
    assert forall|k: int| 0 <= k < theirs.len() implies parties.contains(#[trigger] theirs[k]) by {
        assert(right[k] == left[order[k]]);
        assert(parties.contains(mine[order[k]]));
    }
    assert forall|k: int| 0 <= k < parties.len() implies theirs.contains(#[trigger] parties[k]) by {
        assert(mine.contains(parties[k]));
        let m = choose|m: int| 0 <= m < mine.len() && mine[m] == parties[k];
        assert(order.contains(m));
        let i = choose|i: int| 0 <= i < order.len() && order[i] == m;
        assert(right[i] == left[order[i]]);
        assert(theirs[i] == parties[k]);
    }
    assert forall|c: int| 0 <= c < right.len() implies contribution_agrees(
        right[0].shares,
        (#[trigger] right[c]).shares,
    ) by {
        assert(right[0] == left[order[0]]);
        assert(right[c] == left[order[c]]);
        let head = left[0].shares;
        let a = left[order[0]].shares;
        let b = left[order[c]].shares;
        assert(names_distinct(head));
        assert(names_distinct(a));
        assert(contribution_agrees(head, a));
        assert(contribution_agrees(head, b));
        lemma_agreement_is_symmetric(head, a);
        lemma_agreement_is_transitive(a, head, b);
    }
}

} // verus!
