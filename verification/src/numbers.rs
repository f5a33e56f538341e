//! Decimal text: what counts as a number, what it denotes and how a number
//! is written back.

use vstd::prelude::*;

verus! {

/// Whether `c` is one of the ten decimal digits.
pub open spec fn is_digit(c: char) -> bool {
    48 <= c as int <= 57
}

/// The digit that `c` stands for.
pub open spec fn digit_of(c: char) -> nat {
    (c as int - 48) as nat
}

/// The character that writes the digit `d`.
pub open spec fn digit_char(d: nat) -> char {
    (48 + d) as char
}

/// The number written by the digits of `text`, read left to right; any
/// other character is passed over.
pub open spec fn digits_value(text: Seq<char>) -> nat
    decreases text.len(),
{
    if text.len() == 0 {
        0
    } else if is_digit(text.last()) {
        10 * digits_value(text.drop_last()) + digit_of(text.last())
    } else {
        digits_value(text.drop_last())
    }
}

/// The shortest decimal text of `n`: no sign, no leading zero but for zero
/// itself.
pub open spec fn decimal(n: nat) -> Seq<char>
    decreases n,
{
    if n < 10 {
        seq![digit_char(n)]
    } else {
        decimal(n / 10).push(digit_char(n % 10))
    }
}

/// The shortest decimal text of `v`, with a minus sign below zero.
pub open spec fn signed_decimal(v: int) -> Seq<char> {
    if v < 0 {
        seq!['-'] + decimal((-v) as nat)
    } else {
        decimal(v as nat)
    }
}

/// `text` without one leading `lead`, unless a plus sign follows it.
pub open spec fn without_lead(text: Seq<char>, lead: char) -> Seq<char> {
    if text.len() > 0 && text[0] == lead && !(text.len() > 1 && text[1] == '+') {
        text.drop_first()
    } else {
        text
    }
}

/// The texts accepted as an unsigned integer of any size: an optional plus
/// sign, then digits with optional underscores between or after them.
pub open spec fn is_big_unsigned(text: Seq<char>) -> bool {
    let body = without_lead(text, '+');
    &&& body.len() > 0
    &&& body[0] != '_'
    &&& forall|i: int| 0 <= i < body.len() ==> is_digit(#[trigger] body[i]) || body[i] == '_'
}

/// The number that an accepted unsigned text denotes.
pub open spec fn big_unsigned_value(text: Seq<char>) -> nat {
    digits_value(without_lead(text, '+'))
}

/// The texts accepted as a signed integer of any size: an optional minus
/// sign in front of an unsigned integer.
pub open spec fn is_big_signed(text: Seq<char>) -> bool {
    is_big_unsigned(without_lead(text, '-'))
}

/// The number that an accepted signed text denotes.
pub open spec fn big_signed_value(text: Seq<char>) -> int {
    let magnitude = big_unsigned_value(without_lead(text, '-'));
    if text.len() > 0 && text[0] == '-' {
        -(magnitude as int)
    } else {
        magnitude as int
    }
}

/// `text` without one leading plus sign.
pub open spec fn without_plus(text: Seq<char>) -> Seq<char> {
    if text.len() > 0 && text[0] == '+' {
        text.drop_first()
    } else {
        text
    }
}

/// The texts accepted as a machine-sized unsigned integer below `limit`: an
/// optional plus sign, then one digit or more.
pub open spec fn is_small_unsigned(text: Seq<char>, limit: nat) -> bool {
    let body = without_plus(text);
    &&& body.len() > 0
    &&& forall|i: int| 0 <= i < body.len() ==> is_digit(#[trigger] body[i])
    &&& digits_value(body) < limit
}

/// The number that an accepted machine-sized text denotes.
pub open spec fn small_unsigned_value(text: Seq<char>) -> nat {
    digits_value(without_plus(text))
}

/// Reads a signed integer of any size and writes it back in its shortest
/// form.
///
/// Trusted: the body parses with `num_bigint::BigInt`'s `FromStr` and
/// renders with its `Display`. The contract restates the grammar of the
/// former (radix ten) and the output of the latter.
#[verifier::external_body]
pub(crate) fn parse_big_signed(text: &str) -> (shortest: Option<String>)
    ensures
        shortest.is_some() == is_big_signed(text@),
        shortest matches Some(written) ==> written@ == signed_decimal(big_signed_value(text@)),
{
    match text.parse::<num_bigint::BigInt>() {
        Ok(number) => Some(number.to_string()),
        Err(_) => None,
    }
}

/// Reads an unsigned integer of any size and writes it back in its
/// shortest form.
///
/// Trusted: the body parses with `num_bigint::BigUint`'s `FromStr` and
/// renders with its `Display`. The contract restates the grammar of the
/// former (radix ten) and the output of the latter.
#[verifier::external_body]
pub(crate) fn parse_big_unsigned(text: &str) -> (shortest: Option<String>)
    ensures
        shortest.is_some() == is_big_unsigned(text@),
        shortest matches Some(written) ==> written@ == decimal(big_unsigned_value(text@)),
{
    match text.parse::<num_bigint::BigUint>() {
        Ok(number) => Some(number.to_string()),
        Err(_) => None,
    }
}

/// Reads a 64-bit unsigned integer.
///
/// Trusted: the body is `u64`'s `FromStr`, which takes an optional plus
/// sign and then digits only, and refuses what does not fit.
#[verifier::external_body]
pub(crate) fn parse_u64(text: &str) -> (number: Option<u64>)
    ensures
        number.is_some() == is_small_unsigned(text@, 0x1_0000_0000_0000_0000),
        number matches Some(n) ==> n == small_unsigned_value(text@),
{
    text.parse::<u64>().ok()
}

/// Reads a 16-bit unsigned integer.
///
/// Trusted: the body is `u16`'s `FromStr`, which takes an optional plus
/// sign and then digits only, and refuses what does not fit.
#[verifier::external_body]
pub(crate) fn parse_u16(text: &str) -> (number: Option<u16>)
    ensures
        number.is_some() == is_small_unsigned(text@, 0x1_0000),
        number matches Some(n) ==> n == small_unsigned_value(text@),
{
    text.parse::<u16>().ok()
}

/// Writes a 64-bit unsigned integer in decimal.
///
/// Trusted: the body is `u64`'s `to_string`, which writes the shortest
/// decimal text.
#[verifier::external_body]
pub(crate) fn write_u64(number: u64) -> (text: String)
    ensures
        text@ == decimal(number as nat),
{
    number.to_string()
}

/// Writes a 16-bit unsigned integer in decimal.
///
/// Trusted: the body is `u16`'s `to_string`, which writes the shortest
/// decimal text.
#[verifier::external_body]
pub(crate) fn write_u16(number: u16) -> (text: String)
    ensures
        text@ == decimal(number as nat),
{
    number.to_string()
}

/// The shortest decimal text of a number is made of digits only and
/// denotes that number.
pub proof fn lemma_decimal_reads_back(n: nat)
    ensures
        decimal(n).len() > 0,
        forall|i: int| 0 <= i < decimal(n).len() ==> is_digit(#[trigger] decimal(n)[i]),
        digits_value(decimal(n)) == n,
    decreases n,
{
    if n < 10 {
        let text = decimal(n);
        assert(text.len() == 1);
        assert(text[0] == digit_char(n));
        assert(text.drop_last() =~= Seq::<char>::empty());
        assert(digits_value(text.drop_last()) == 0);
    } else {
        lemma_decimal_reads_back(n / 10);
        let head = decimal(n / 10);
        let text = decimal(n);
        assert(text == head.push(digit_char(n % 10)));
        assert(text.drop_last() =~= head);
        assert(text.last() == digit_char(n % 10));
        assert forall|i: int| 0 <= i < text.len() implies is_digit(#[trigger] text[i]) by {
            if i < head.len() {
                assert(text[i] == head[i]);
            }
        }
    }
}

/// A number written in its shortest form is accepted as a machine-sized
/// integer below any limit above it, and read as itself.
pub proof fn lemma_written_number_is_read(n: nat, limit: nat)
    requires
        n < limit,
    ensures
        is_small_unsigned(decimal(n), limit),
        small_unsigned_value(decimal(n)) == n,
{
    lemma_decimal_reads_back(n);
    assert(is_digit(decimal(n)[0]));
    assert(without_plus(decimal(n)) == decimal(n));
}

/// The shortest text of a natural number is accepted as an unsigned
/// integer of any size, and read as that number.
pub proof fn lemma_unsigned_text_reads_back(n: nat)
    ensures
        is_big_unsigned(decimal(n)),
        big_unsigned_value(decimal(n)) == n,
{
    lemma_decimal_reads_back(n);
    assert(is_digit(decimal(n)[0]));
    assert(without_lead(decimal(n), '+') == decimal(n));
}

/// The shortest text of an integer is accepted as a signed integer of any
/// size, and read as that integer.
pub proof fn lemma_signed_text_reads_back(v: int)
    ensures
        is_big_signed(signed_decimal(v)),
        big_signed_value(signed_decimal(v)) == v,
{
    let text = signed_decimal(v);
    if v < 0 {
        let tail = decimal((-v) as nat);
        lemma_unsigned_text_reads_back((-v) as nat);
        lemma_decimal_reads_back((-v) as nat);
        assert(is_digit(tail[0]));
        assert(text[0] == '-');
        assert(text[1] == tail[0]);
        assert(text.drop_first() =~= tail);
        assert(without_lead(text, '-') == tail);
    } else {
        lemma_unsigned_text_reads_back(v as nat);
        lemma_decimal_reads_back(v as nat);
        assert(is_digit(text[0]));
        assert(without_lead(text, '-') == text);
    }
}

} // verus!
