//! Canonical decimal and lowercase-hexadecimal renderings, and their parsers.
use vstd::prelude::*;

verus! {

/// `String::push`: appends one character.
#[verifier::external_body]
pub(crate) fn push_char(text: &mut String, value: char)
    ensures
        final(text)@ == old(text)@.push(value),
{
    text.push(value);
}

/// The ASCII byte of a decimal digit.
pub open spec fn digit_byte(d: nat) -> u8
    recommends
        d < 10,
{
    (d + 48) as u8
}

/// Whether a byte is an ASCII decimal digit.
pub open spec fn is_digit(b: u8) -> bool {
    48 <= b <= 57
}

/// The canonical decimal rendering of a number: no sign, no leading zero.
pub open spec fn decimal_digits(n: nat) -> Seq<u8>
    decreases n,
{
    if n < 10 {
        seq![digit_byte(n)]
    } else {
        decimal_digits(n / 10).push(digit_byte(n % 10))
    }
}

/// The value of a string of decimal digits, most significant first.
pub open spec fn digits_value(s: Seq<u8>) -> nat
    decreases s.len(),
{
    if s.len() == 0 {
        0
    } else {
        digits_value(s.drop_last()) * 10 + (s.last() - 48) as nat
    }
}

/// Bytes that are all ASCII digits.
pub open spec fn all_digits(s: Seq<u8>) -> bool {
    forall|i: int| 0 <= i < s.len() ==> is_digit(#[trigger] s[i])
}

/// The value of a canonical unsigned decimal that fits in 64 bits: at least
/// one digit, only digits, no leading zero unless the number is zero.
pub open spec fn canonical_decimal(s: Seq<u8>) -> Option<u64> {
    if s.len() == 0 || (s.len() > 1 && s[0] == 48u8) || !all_digits(s) || digits_value(s)
        > u64::MAX {
        None
    } else {
        Some(digits_value(s) as u64)
    }
}

/// Decimal renderings are canonical and read back as the rendered number.
pub proof fn lemma_decimal_round_trip(n: nat)
    ensures
        decimal_digits(n).len() >= 1,
        all_digits(decimal_digits(n)),
        decimal_digits(n).len() > 1 ==> decimal_digits(n)[0] != 48u8,
        digits_value(decimal_digits(n)) == n,
    decreases n,
{
    if n >= 10 {
        lemma_decimal_round_trip(n / 10);
        let prefix = decimal_digits(n / 10);
        assert(decimal_digits(n).drop_last() =~= prefix);
        assert(decimal_digits(n)[0] == prefix[0]);
        assert(n / 10 >= 1);
        if prefix.len() == 1 {
            assert(digits_value(prefix) == n / 10);
            assert(digits_value(prefix) == digits_value(prefix.drop_last()) * 10 + (prefix.last()
                - 48) as nat);
            assert(prefix.drop_last().len() == 0);
        }
        assert(digits_value(decimal_digits(n)) == digits_value(prefix) * 10 + (n % 10));
        assert(n == (n / 10) * 10 + n % 10);
    } else {
        let d = decimal_digits(n);
        assert(d.drop_last().len() == 0);
        assert(d.last() == digit_byte(n));
        assert(digit_byte(n) == n + 48);
        assert(digits_value(d.drop_last()) == 0);
        assert(digits_value(d) == n);
    }
}

/// A canonical number renders back as the same digits.
pub proof fn lemma_canonical_decimal_unique(s: Seq<u8>)
    requires
        canonical_decimal(s) is Some,
    ensures
        decimal_digits(canonical_decimal(s)->Some_0 as nat) == s,
    decreases s.len(),
{
    let n = digits_value(s);
    if s.len() == 1 {
        assert(s.drop_last().len() == 0);
        assert(digits_value(s) == (s[0] - 48) as nat);
        assert(decimal_digits(n) =~= s);
    } else {
        let prefix = s.drop_last();
        assert(prefix[0] == s[0]);
        lemma_digits_value_bounded(prefix);
        lemma_leading_digit_positive(prefix);
        assert(canonical_decimal(prefix) is Some);
        lemma_canonical_decimal_unique(prefix);
        assert(n == digits_value(prefix) * 10 + (s.last() - 48) as nat);
        assert(n >= 10);
        assert(n / 10 == digits_value(prefix));
        assert(n % 10 == (s.last() - 48) as nat);
        assert(decimal_digits(n) =~= s);
    }
}

/// A prefix of digits is worth no more than the whole.
pub proof fn lemma_digits_value_bounded(s: Seq<u8>)
    requires
        s.len() > 0,
        all_digits(s),
    ensures
        digits_value(s.drop_last()) <= digits_value(s),
{
}

/// Digits that do not start with zero are worth at least ten to the number of
/// following digits; in particular two or more such digits are worth at least ten.
pub proof fn lemma_leading_digit_positive(s: Seq<u8>)
    requires
        s.len() >= 1,
        all_digits(s),
        s[0] != 48u8,
    ensures
        digits_value(s) >= 1,
    decreases s.len(),
{
    if s.len() > 1 {
        assert(s.drop_last()[0] == s[0]);
        lemma_leading_digit_positive(s.drop_last());
    } else {
        assert(s.drop_last().len() == 0);
    }
}

/// A prefix of a digit string is worth no more than the whole string.
pub proof fn lemma_prefix_value_le(s: Seq<u8>, k: int)
    requires
        all_digits(s),
        0 <= k <= s.len(),
    ensures
        digits_value(s.take(k)) <= digits_value(s),
    decreases s.len() - k,
{
    if k < s.len() {
        lemma_prefix_value_le(s, k + 1);
        assert(s.take(k + 1).drop_last() =~= s.take(k));
    } else {
        assert(s.take(k) =~= s);
    }
}

/// A digit string whose prefix already exceeds 64 bits is no canonical number.
pub proof fn lemma_prefix_exceeds(s: Seq<u8>, k: int)
    requires
        0 <= k <= s.len(),
        digits_value(s.take(k)) > u64::MAX,
    ensures
        canonical_decimal(s) is None,
{
    if all_digits(s) {
        lemma_prefix_value_le(s, k);
    }
}

/// Renders a number in canonical decimal ASCII.
pub fn decimal_bytes(n: u64) -> (digits: Vec<u8>)
    ensures
        digits@ == decimal_digits(n as nat),
    decreases n,
{
    if n < 10 {
        let mut digits = Vec::new();
        digits.push((n as u8) + 48);
        assert(digits@ =~= decimal_digits(n as nat));
        digits
    } else {
        let mut digits = decimal_bytes(n / 10);
        digits.push(((n % 10) as u8) + 48);
        digits
    }
}

/// The characters of an ASCII byte string.
pub open spec fn ascii_chars(bytes: Seq<u8>) -> Seq<char> {
    bytes.map_values(|b: u8| b as char)
}

/// Appends ASCII bytes to a string as characters.
pub fn push_ascii(text: &mut String, bytes: &[u8])
    ensures
        final(text)@ == old(text)@ + ascii_chars(bytes@),
{
    let mut i: usize = 0;
    while i < bytes.len()
        invariant
            0 <= i <= bytes@.len(),
            text@ == old(text)@ + ascii_chars(bytes@.take(i as int)),
        decreases bytes@.len() - i,
    {
        push_char(text, bytes[i] as char);
        assert(ascii_chars(bytes@.take(i + 1)) =~= ascii_chars(bytes@.take(i as int)).push(
            bytes@[i as int] as char,
        ));
        i = i + 1;
    }
    assert(bytes@.take(i as int) =~= bytes@);
}

/// Renders a number in canonical decimal as a string.
pub fn decimal_string(n: u64) -> (text: String)
    ensures
        text@ == ascii_chars(decimal_digits(n as nat)),
{
    let digits = decimal_bytes(n);
    let mut text = String::new();
    push_ascii(&mut text, digits.as_slice());
    text
}

/// The lowercase hexadecimal digit for a value below sixteen.
pub open spec fn hex_digit(v: nat) -> u8
    recommends
        v < 16,
{
    if v < 10 {
        (v + 48) as u8
    } else {
        (v + 87) as u8
    }
}

/// Two lowercase hexadecimal digits per byte, high nibble first.
pub open spec fn hex_lower(bytes: Seq<u8>) -> Seq<u8>
    decreases bytes.len(),
{
    if bytes.len() == 0 {
        Seq::empty()
    } else {
        hex_lower(bytes.drop_last()) + seq![
            hex_digit((bytes.last() / 16) as nat),
            hex_digit((bytes.last() % 16) as nat),
        ]
    }
}

/// The digits of each byte in a lowercase hexadecimal rendering.
pub proof fn lemma_hex_lower(d: Seq<u8>)
    ensures
        hex_lower(d).len() == 2 * d.len(),
        forall|k: int|
            0 <= k < d.len() ==> #[trigger] hex_lower(d)[2 * k] == hex_digit((d[k] / 16) as nat)
                && hex_lower(d)[2 * k + 1] == hex_digit((d[k] % 16) as nat),
    decreases d.len(),
{
    if d.len() > 0 {
        let prefix = d.drop_last();
        lemma_hex_lower(prefix);
        assert forall|k: int| 0 <= k < d.len() implies #[trigger] hex_lower(d)[2 * k] == hex_digit(
            (d[k] / 16) as nat,
        ) && hex_lower(d)[2 * k + 1] == hex_digit((d[k] % 16) as nat) by {
            if k < prefix.len() {
                assert(hex_lower(prefix)[2 * k] == hex_digit((prefix[k] / 16) as nat));
                assert(prefix[k] == d[k]);
            }
        }
    }
}

/// Lowercase hexadecimal renderings are ASCII.
pub proof fn lemma_hex_lower_ascii(d: Seq<u8>)
    ensures
        forall|i: int| 0 <= i < hex_lower(d).len() ==> #[trigger] hex_lower(d)[i] < 128,
{
    lemma_hex_lower(d);
    assert forall|i: int| 0 <= i < hex_lower(d).len() implies #[trigger] hex_lower(d)[i] < 128 by {
        let k = i / 2;
        assert(hex_lower(d)[2 * k] == hex_digit((d[k] / 16) as nat));
        assert(hex_lower(d)[2 * k + 1] == hex_digit((d[k] % 16) as nat));
    }
}

/// Renders bytes as lowercase hexadecimal ASCII.
pub fn hex_bytes(input: &[u8]) -> (output: Vec<u8>)
    ensures
        output@ == hex_lower(input@),
{
    let mut output: Vec<u8> = Vec::new();
    let mut i: usize = 0;
    while i < input.len()
        invariant
            0 <= i <= input@.len(),
            output@ == hex_lower(input@.take(i as int)),
        decreases input@.len() - i,
    {
        let value = input[i];
        let high = value / 16;
        let low = value % 16;
        output.push(if high < 10 {
            high + 48
        } else {
            high + 87
        });
        output.push(if low < 10 {
            low + 48
        } else {
            low + 87
        });
        assert(input@.take(i + 1).drop_last() =~= input@.take(i as int));
        assert(output@ =~= hex_lower(input@.take(i + 1)));
        i = i + 1;
    }
    assert(input@.take(i as int) =~= input@);
    output
}

/// Renders bytes as a lowercase hexadecimal string.
pub fn lowercase_hex(input: &[u8]) -> (text: String)
    ensures
        text@ == ascii_chars(hex_lower(input@)),
{
    let digits = hex_bytes(input);
    let mut text = String::new();
    push_ascii(&mut text, digits.as_slice());
    text
}

} // verus!
