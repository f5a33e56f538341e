//! The metadata of a program: its size, its instructions by name, and
//! the preprocessing material it needs, by the name of each kind.

use crate::name_map::{gathered, NameMap};
use vstd::prelude::*;

verus! {

/// The kinds of preprocessing material that a program can need.
#[derive(Clone, Copy, Debug, PartialEq, Eq, Structural)]
pub enum RuntimeRequirementType {
    /// Material for a comparison.
    Compare,
    /// Material for a division by a secret divisor.
    DivisionIntegerSecret,
    /// Material for an equality with a secret outcome.
    EqualsIntegerSecret,
    /// Material for a modulo.
    Modulo,
    /// Material for an equality with a public outcome.
    PublicOutputEquality,
    /// Material for a probabilistic truncation.
    TruncPr,
    /// Material for a truncation.
    Trunc,
    /// Material for a random integer.
    RandomInteger,
    /// Material for a random boolean.
    RandomBoolean,
    /// Auxiliary material for ECDSA.
    EcdsaAuxInfo,
}

impl RuntimeRequirementType {
    /// The name that the kind goes by in the metadata of a program.
    pub open spec fn key(self) -> Seq<char> {
        match self {
            RuntimeRequirementType::Compare => "COMPARE"@,
            RuntimeRequirementType::DivisionIntegerSecret => "DIVISION_SECRET_DIVISOR"@,
            RuntimeRequirementType::EqualsIntegerSecret => "EQUALITY_SECRET_OUTPUT"@,
            RuntimeRequirementType::Modulo => "MODULO"@,
            RuntimeRequirementType::PublicOutputEquality => "EQUALITY_PUBLIC_OUTPUT"@,
            RuntimeRequirementType::TruncPr => "TRUNC_PR"@,
            RuntimeRequirementType::Trunc => "TRUNC"@,
            RuntimeRequirementType::RandomInteger => "RANDOM_INTEGER"@,
            RuntimeRequirementType::RandomBoolean => "RANDOM_BOOLEAN"@,
            RuntimeRequirementType::EcdsaAuxInfo => "ECDSA_AUX_INFO"@,
        }
    }

    /// The name that the kind goes by in the metadata of a program.
    pub fn name(&self) -> (name: &'static str)
        ensures
            name@ == self.key(),
    {
        match self {
            RuntimeRequirementType::Compare => "COMPARE",
            RuntimeRequirementType::DivisionIntegerSecret => "DIVISION_SECRET_DIVISOR",
            RuntimeRequirementType::EqualsIntegerSecret => "EQUALITY_SECRET_OUTPUT",
            RuntimeRequirementType::Modulo => "MODULO",
            RuntimeRequirementType::PublicOutputEquality => "EQUALITY_PUBLIC_OUTPUT",
            RuntimeRequirementType::TruncPr => "TRUNC_PR",
            RuntimeRequirementType::Trunc => "TRUNC",
            RuntimeRequirementType::RandomInteger => "RANDOM_INTEGER",
            RuntimeRequirementType::RandomBoolean => "RANDOM_BOOLEAN",
            RuntimeRequirementType::EcdsaAuxInfo => "ECDSA_AUX_INFO",
        }
    }
}

/// What a list of named counts holds, in the same order.
pub open spec fn counts_view(counts: Seq<(String, u64)>) -> Seq<(Seq<char>, u64)> {
    Seq::new(counts.len(), |i: int| (counts[i].0@, counts[i].1))
}

/// The counts of `requirements`, each under the name of its kind.
pub open spec fn named_requirements(requirements: Seq<(RuntimeRequirementType, usize)>) -> Seq<
    (Seq<char>, u64),
> {
    Seq::new(requirements.len(), |i: int| (requirements[i].0.key(), requirements[i].1 as u64))
}

/// The metadata for a program.
#[derive(Debug, PartialEq, Eq)]
pub struct ProgramMetadata {
    memory_size: u64,
    total_instructions: u64,
    instructions: NameMap<u64>,
    preprocessing_requirements: NameMap<u64>,
}

/// What a [`ProgramMetadata`] holds.
pub struct ProgramMetadataView {
    pub memory_size: u64,
    pub total_instructions: u64,
    pub instructions: Seq<(Seq<char>, u64)>,
    pub preprocessing_requirements: Seq<(Seq<char>, u64)>,
}

impl View for ProgramMetadata {
    type V = ProgramMetadataView;

    closed spec fn view(&self) -> ProgramMetadataView {
        ProgramMetadataView {
            memory_size: self.memory_size,
            total_instructions: self.total_instructions,
            instructions: self.instructions@,
            preprocessing_requirements: self.preprocessing_requirements@,
        }
    }
}

/// The counts of a mapping, each under its name and in the order of the
/// entries.
fn listed(counts: &NameMap<u64>) -> (list: Vec<(String, u64)>)
    ensures
        counts_view(list@) == counts@,
{
    let count = counts.len();
    let mut list: Vec<(String, u64)> = Vec::new();
    let mut i: usize = 0;
    while i < count
        invariant
            i <= count,
            count == counts@.len(),
            list@.len() == i,
            forall|k: int|
                0 <= k < i ==> (#[trigger] list@[k]).0@ == counts@[k].0 && list@[k].1
                    == counts@[k].1,
        decreases count - i,
    {
        list.push((counts.name_at(i).clone(), *counts.value_at(i)));
        i = i + 1;
    }
    assert(counts_view(list@) =~= counts@);
    list
}

impl ProgramMetadata {
    /// The metadata of a program of the size, the instructions and the
    /// preprocessing requirements given. Each requirement goes under the
    /// name of its kind; of two counts under one name the later stays.
    pub fn new(
        memory_size: u64,
        total_instructions: u64,
        instructions: Vec<(String, u64)>,
        preprocessing_requirements: Vec<(RuntimeRequirementType, usize)>,
    ) -> (metadata: ProgramMetadata)
        ensures
            metadata@ == (ProgramMetadataView {
                memory_size,
                total_instructions,
                instructions: gathered(counts_view(instructions@)),
                preprocessing_requirements: gathered(
                    named_requirements(preprocessing_requirements@),
                ),
            }),
    {
        let mut by_name: NameMap<u64> = NameMap::new();
        let mut i: usize = 0;
        assert(counts_view(instructions@).take(0) =~= Seq::<(Seq<char>, u64)>::empty());
        while i < instructions.len()
            invariant
                i <= instructions.len(),
                by_name@ == gathered(counts_view(instructions@).take(i as int)),
            decreases instructions.len() - i,
        {
            proof {
                let all = counts_view(instructions@);
                assert(all.take(i + 1).drop_last() =~= all.take(i as int));
                assert(all.take(i + 1).last() == all[i as int]);
            }
            by_name.insert(instructions[i].0.clone(), instructions[i].1);
            i = i + 1;
        }
        assert(counts_view(instructions@).take(i as int) =~= counts_view(instructions@));
        let mut by_kind: NameMap<u64> = NameMap::new();
        let mut k: usize = 0;
        assert(named_requirements(preprocessing_requirements@).take(0) =~= Seq::<
            (Seq<char>, u64),
        >::empty());
        while k < preprocessing_requirements.len()
            invariant
                k <= preprocessing_requirements.len(),
                by_kind@ == gathered(
                    named_requirements(preprocessing_requirements@).take(k as int),
                ),
            decreases preprocessing_requirements.len() - k,
        {
            proof {
                let all = named_requirements(preprocessing_requirements@);
                assert(all.take(k + 1).drop_last() =~= all.take(k as int));
                assert(all.take(k + 1).last() == all[k as int]);
            }
            let key = preprocessing_requirements[k].0.name().to_owned();
            by_kind.insert(key, preprocessing_requirements[k].1 as u64);
            k = k + 1;
        }
        assert(named_requirements(preprocessing_requirements@).take(k as int)
            =~= named_requirements(preprocessing_requirements@));
        ProgramMetadata {
            memory_size,
            total_instructions,
            instructions: by_name,
            preprocessing_requirements: by_kind,
        }
    }

    /// The program memory size.
    pub fn memory_size(&self) -> (size: u64)
        ensures
            size == self@.memory_size,
    {
        self.memory_size
    }

    /// The total number of instructions.
    pub fn total_instructions(&self) -> (total: u64)
        ensures
            total == self@.total_instructions,
    {
        self.total_instructions
    }

    /// The program instructions: the count of each, under its name.
    pub fn instructions(&self) -> (counts: Vec<(String, u64)>)
        ensures
            counts_view(counts@) == self@.instructions,
    {
        listed(&self.instructions)
    }

    /// The program preprocessing requirements: the count of each kind,
    /// under the name of the kind.
    pub fn preprocessing_requirements(&self) -> (counts: Vec<(String, u64)>)
        ensures
            counts_view(counts@) == self@.preprocessing_requirements,
    {
        listed(&self.preprocessing_requirements)
    }
}

} // verus!
