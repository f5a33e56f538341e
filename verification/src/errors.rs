//! What can go wrong, and where.

use vstd::prelude::*;

verus! {

/// The named parts that values are built from and encoded into.
#[derive(Clone, Copy, Debug, PartialEq, Eq, Structural)]
pub enum Field {
    /// The tag that names a value's variant.
    Type,
    /// An encoded number, or the text of a number.
    Value,
    /// The chunks of a blob.
    Shares,
    /// The byte count of a blob before it was encoded.
    OriginalSize,
    /// The index of the holder of a key share.
    I,
    /// The secret scalar of a key, or of a share of it.
    X,
    /// The public point of a shared key.
    SharedPublicKey,
    /// The public points of the holders of a shared key.
    PublicShares,
    /// A message digest.
    Digest,
    /// The component `r` of a signature.
    R,
    /// The component `s` of a signature.
    S,
    /// The component `sigma` of a share of a signature.
    Sigma,
    /// The component `z` of a signature.
    Z,
    /// A public key.
    PublicKey,
    /// A message to sign.
    Message,
    /// A signature in one piece.
    Signature,
    /// The identifier of a stored value.
    StoreId,
}

/// The representations that a value can be asked for.
#[derive(Clone, Copy, Debug, PartialEq, Eq, Structural)]
pub enum Representation {
    /// A byte array.
    ByteArray,
    /// The decimal text of a number, or the text of a boolean.
    Integer,
    /// The two components of an ECDSA signature.
    EcdsaSignature,
    /// The two components of an EdDSA signature.
    EddsaSignature,
    /// The interchange object of an encrypted value.
    Interchange,
}

/// Why a set of participant shares is not a complete jar.
#[derive(Clone, Copy, Debug, PartialEq, Eq, Structural)]
pub enum JarFault {
    /// The configured participant at this position contributed nothing.
    Missing { participant: usize },
    /// The contribution at this position comes from a participant that
    /// contributed before.
    Duplicate { contribution: usize },
    /// The contribution at this position comes from a participant that is
    /// not configured.
    Unexpected { contribution: usize },
}

/// A failure of one operation on values. Nothing is retried, and nothing
/// is kept of an operation that failed.
#[derive(Clone, Copy, Debug, PartialEq, Eq, Structural)]
pub enum ValueError {
    /// A text does not read as the number it should be; or an interchange
    /// object lacks the field, holds it in another shape, or names under
    /// it a variant that does not exist.
    ValueParse { field: Field },
    /// A byte field does not have the width that its kind fixes.
    LengthMismatch { field: Field, expected: usize, actual: usize },
    /// A scalar is out of range or zero, a point is not on its curve or is
    /// the identity, or the parts of a key share do not fit together.
    ScalarOrPointInvalid { field: Field },
    /// The value's variant does not have the representation asked for.
    UnsupportedConversion { wanted: Representation },
    /// The participants or the degree do not make a sharing scheme.
    MaskerConstruction,
    /// The contributions are not one from each configured participant.
    JarValidation { fault: JarFault },
    /// The participants disagree on a value's name, variant or public
    /// content.
    ReconstructionMismatch { contribution: usize, entry: usize },
}

/// A failure together with the position, in the order of the entries, of
/// the named value that caused it.
#[derive(Clone, Copy, Debug, PartialEq, Eq, Structural)]
pub struct EntryError {
    /// The position of the entry.
    pub entry: usize,
    /// What went wrong with it.
    pub error: ValueError,
}

} // verus!
