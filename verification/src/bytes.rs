//! Byte strings: copies, comparisons and the numbers they encode.

use crate::errors::{Field, ValueError};
use vstd::prelude::*;

verus! {

/// The number that `bytes` encodes with the least significant byte first.
pub open spec fn le_nat(bytes: Seq<u8>) -> nat
    decreases bytes.len(),
{
    if bytes.len() == 0 {
        0
    } else {
        bytes[0] as nat + 256 * le_nat(bytes.drop_first())
    }
}

/// The number that `bytes` encodes with the most significant byte first.
pub open spec fn be_nat(bytes: Seq<u8>) -> nat
    decreases bytes.len(),
{
    if bytes.len() == 0 {
        0
    } else {
        256 * be_nat(bytes.drop_last()) + bytes.last() as nat
    }
}

/// `count` zero bytes.
pub open spec fn zeros(count: nat) -> Seq<u8> {
    Seq::new(count, |i: int| 0u8)
}

/// `bytes` behind as many zero bytes as bring it to `width` bytes.
pub open spec fn pad_front(bytes: Seq<u8>, width: nat) -> Seq<u8>
    recommends
        bytes.len() <= width,
{
    zeros((width - bytes.len()) as nat) + bytes
}

/// `bytes` in front of as many zero bytes as bring it to `width` bytes.
pub open spec fn pad_back(bytes: Seq<u8>, width: nat) -> Seq<u8>
    recommends
        bytes.len() <= width,
{
    bytes + zeros((width - bytes.len()) as nat)
}

/// The byte strings that a list of byte vectors holds, in the same order.
pub open spec fn rows_view(rows: Seq<Vec<u8>>) -> Seq<Seq<u8>> {
    Seq::new(rows.len(), |i: int| rows[i]@)
}

/// A fresh vector holding the bytes of `source`.
pub fn copy_bytes(source: &Vec<u8>) -> (copy: Vec<u8>)
    ensures
        copy@ == source@,
{
    let mut copy: Vec<u8> = Vec::new();
    let mut i: usize = 0;
    while i < source.len()
        invariant
            i <= source.len(),
            copy@ == source@.take(i as int),
        decreases source.len() - i,
    {
        copy.push(source[i]);
        i = i + 1;
        assert(copy@ =~= source@.take(i as int));
    }
    assert(source@.take(source.len() as int) =~= source@);
    copy
}

/// A fresh vector holding the bytes of `source` from position `from` up to
/// position `to`.
pub fn copy_range(source: &Vec<u8>, from: usize, to: usize) -> (copy: Vec<u8>)
    requires
        from <= to <= source@.len(),
    ensures
        copy@ == source@.subrange(from as int, to as int),
{
    let mut copy: Vec<u8> = Vec::new();
    let mut i: usize = from;
    while i < to
        invariant
            from <= i <= to <= source@.len(),
            copy@ == source@.subrange(from as int, i as int),
        decreases to - i,
    {
        copy.push(source[i]);
        i = i + 1;
        assert(copy@ =~= source@.subrange(from as int, i as int));
    }
    copy
}

/// Fresh vectors holding the bytes of each of `rows`.
pub fn copy_rows(rows: &Vec<Vec<u8>>) -> (copy: Vec<Vec<u8>>)
    ensures
        rows_view(copy@) == rows_view(rows@),
{
    let mut copy: Vec<Vec<u8>> = Vec::new();
    let mut i: usize = 0;
    while i < rows.len()
        invariant
            i <= rows.len(),
            copy@.len() == i,
            forall|k: int| 0 <= k < i ==> (#[trigger] copy@[k])@ == rows@[k]@,
        decreases rows.len() - i,
    {
        copy.push(copy_bytes(&rows[i]));
        i = i + 1;
    }
    assert(rows_view(copy@) =~= rows_view(rows@));
    copy
}

/// Whether two byte strings hold the same bytes.
pub fn bytes_equal(left: &Vec<u8>, right: &Vec<u8>) -> (same: bool)
    ensures
        same == (left@ == right@),
{
    if left.len() != right.len() {
        return false;
    }
    let mut i: usize = 0;
    while i < left.len()
        invariant
            i <= left.len(),
            left.len() == right.len(),
            left@.take(i as int) == right@.take(i as int),
        decreases left.len() - i,
    {
        if left[i] != right[i] {
            return false;
        }
        i = i + 1;
        assert(left@.take(i as int) =~= left@.take(i - 1).push(left@[i - 1]));
        assert(right@.take(i as int) =~= right@.take(i - 1).push(right@[i - 1]));
    }
    assert(left@.take(left.len() as int) =~= left@);
    assert(right@.take(right.len() as int) =~= right@);
    true
}

/// Whether two lists of byte strings hold the same byte strings in the
/// same order.
pub fn rows_equal(left: &Vec<Vec<u8>>, right: &Vec<Vec<u8>>) -> (same: bool)
    ensures
        same == (rows_view(left@) == rows_view(right@)),
{
    if left.len() != right.len() {
        assert(rows_view(left@).len() != rows_view(right@).len());
        return false;
    }
    let mut i: usize = 0;
    while i < left.len()
        invariant
            i <= left.len(),
            left.len() == right.len(),
            forall|k: int| 0 <= k < i ==> left@[k]@ == right@[k]@,
        decreases left.len() - i,
    {
        if !bytes_equal(&left[i], &right[i]) {
            assert(rows_view(left@)[i as int] != rows_view(right@)[i as int]);
            return false;
        }
        i = i + 1;
    }
    assert(rows_view(left@) =~= rows_view(right@));
    true
}

/// A byte field of the one width that its kind fixes: the bytes themselves
/// where they have that width, and what was expected and found where not.
pub fn fixed_width(bytes: Vec<u8>, width: usize, field: Field) -> (checked: Result<
    Vec<u8>,
    ValueError,
>)
    ensures
        bytes@.len() == width ==> checked.is_ok() && checked->Ok_0@ == bytes@,
        bytes@.len() != width ==> checked == Err::<Vec<u8>, ValueError>(
            ValueError::LengthMismatch { field, expected: width, actual: bytes@.len() as usize },
        ),
{
    if bytes.len() == width {
        Ok(bytes)
    } else {
        Err(ValueError::LengthMismatch { field, expected: width, actual: bytes.len() })
    }
}

/// Zero bytes encode zero, in either byte order.
pub proof fn lemma_zeros_encode_zero(count: nat)
    ensures
        le_nat(zeros(count)) == 0,
        be_nat(zeros(count)) == 0,
    decreases count,
{
    if count > 0 {
        lemma_zeros_encode_zero((count - 1) as nat);
        assert(zeros(count).drop_first() =~= zeros((count - 1) as nat));
        assert(zeros(count).drop_last() =~= zeros((count - 1) as nat));
    }
}

/// Zero bytes in front leave the number unchanged that bytes encode with
/// the most significant byte first.
pub proof fn lemma_pad_front_keeps_number(bytes: Seq<u8>, width: nat)
    requires
        bytes.len() <= width,
    ensures
        be_nat(pad_front(bytes, width)) == be_nat(bytes),
        pad_front(bytes, width).len() == width,
    decreases bytes.len(),
{
    let gap = (width - bytes.len()) as nat;
    if bytes.len() == 0 {
        lemma_zeros_encode_zero(gap);
        assert(pad_front(bytes, width) =~= zeros(gap));
    } else {
        lemma_pad_front_keeps_number(bytes.drop_last(), (width - 1) as nat);
        assert(pad_front(bytes, width).drop_last() =~= pad_front(
            bytes.drop_last(),
            (width - 1) as nat,
        ));
        assert(pad_front(bytes, width).last() == bytes.last());
    }
}

/// Zero bytes behind leave the number unchanged that bytes encode with the
/// least significant byte first.
pub proof fn lemma_pad_back_keeps_number(bytes: Seq<u8>, width: nat)
    requires
        bytes.len() <= width,
    ensures
        le_nat(pad_back(bytes, width)) == le_nat(bytes),
        pad_back(bytes, width).len() == width,
    decreases bytes.len(),
{
    let gap = (width - bytes.len()) as nat;
    if bytes.len() == 0 {
        lemma_zeros_encode_zero(gap);
        assert(pad_back(bytes, width) =~= zeros(gap));
    } else {
        lemma_pad_back_keeps_number(bytes.drop_first(), (width - 1) as nat);
        assert(pad_back(bytes, width).drop_first() =~= pad_back(
            bytes.drop_first(),
            (width - 1) as nat,
        ));
        assert(pad_back(bytes, width)[0] == bytes[0]);
    }
}

/// Bytes of full width are their own padding.
pub proof fn lemma_full_width_is_padded(bytes: Seq<u8>)
    ensures
        pad_front(bytes, bytes.len()) == bytes,
        pad_back(bytes, bytes.len()) == bytes,
{
    assert(zeros(0) =~= Seq::<u8>::empty());
    assert(pad_front(bytes, bytes.len()) =~= bytes);
    assert(pad_back(bytes, bytes.len()) =~= bytes);
}

} // verus!
