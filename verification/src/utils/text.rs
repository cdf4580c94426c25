//! Numbers and bytes as text.

use vstd::prelude::*;

verus! {

/// A digit as a character.
pub open spec fn digit(d: nat) -> char {
    if d == 0 {
        '0'
    } else if d == 1 {
        '1'
    } else if d == 2 {
        '2'
    } else if d == 3 {
        '3'
    } else if d == 4 {
        '4'
    } else if d == 5 {
        '5'
    } else if d == 6 {
        '6'
    } else if d == 7 {
        '7'
    } else if d == 8 {
        '8'
    } else {
        '9'
    }
}

/// A number in decimal, without leading zeros.
pub open spec fn decimal(n: nat) -> Seq<char>
    decreases n,
{
    if n < 10 {
        seq![digit(n)]
    } else {
        decimal(n / 10).push(digit(n % 10))
    }
}

/// A digit as text.
fn digit_text(d: u64) -> (text: &'static str)
    requires
        d < 10,
    ensures
        text@ == seq![digit(d as nat)],
{
    proof {
        reveal_strlit("0");
        reveal_strlit("1");
        reveal_strlit("2");
        reveal_strlit("3");
        reveal_strlit("4");
        reveal_strlit("5");
        reveal_strlit("6");
        reveal_strlit("7");
        reveal_strlit("8");
        reveal_strlit("9");
    }
    if d == 0 {
        "0"
    } else if d == 1 {
        "1"
    } else if d == 2 {
        "2"
    } else if d == 3 {
        "3"
    } else if d == 4 {
        "4"
    } else if d == 5 {
        "5"
    } else if d == 6 {
        "6"
    } else if d == 7 {
        "7"
    } else if d == 8 {
        "8"
    } else {
        "9"
    }
}

/// Adds a number in decimal to the end of `text`.
pub fn append_decimal(text: &mut String, n: u64)
    ensures
        final(text)@ == old(text)@ + decimal(n as nat),
    decreases n,
{
    let ghost before = text@;
    if n >= 10 {
        append_decimal(text, n / 10);
    }
    text.append(digit_text(n % 10));
    proof {
        assert(text@ =~= before + decimal(n as nat));
    }
}

/// Bytes as text, where bytes that are no text are replaced.
pub uninterp spec fn utf8_lossy(bytes: Seq<u8>) -> Seq<char>;

/// Reads bytes as text, by `String::from_utf8_lossy`. The text depends on the
/// bytes alone; where they are valid UTF-8, it is what they spell. How the rest
/// is replaced is left unsaid.
#[verifier::external_body]
pub(crate) fn from_utf8_lossy(bytes: &[u8]) -> (text: String)
    ensures
        text@ == utf8_lossy(bytes@),
        vstd::utf8::valid_utf8(bytes@) ==> text@ == vstd::utf8::decode_utf8(bytes@),
{
    String::from_utf8_lossy(bytes).into_owned()
}

/// A number in decimal has a digit for each power of ten, the highest first, and does
/// not start with a zero unless it is zero.
pub proof fn law_decimal_digits(n: nat, i: nat)
    requires
        i < decimal(n).len(),
    ensures
        decimal(n)[decimal(n).len() - 1 - i] as int == 48 + n as int
            / vstd::arithmetic::power::pow(10, i) % 10,
        decimal(n)[0] as int == 48 ==> n == 0,
        n < 10 <==> decimal(n).len() == 1,
    decreases n,
{
    reveal(vstd::arithmetic::power::pow);
    if n < 10 {
        assert(n as int / 1 == n);
    } else {
        let high = decimal(n / 10);
        law_decimal_digits(n / 10, 0);
        assert(decimal(n)[0] == high[0]);
        if i > 0 {
            law_decimal_digits(n / 10, (i - 1) as nat);
            let p = vstd::arithmetic::power::pow(10, (i - 1) as nat);
            vstd::arithmetic::power::lemma_pow_positive(10, (i - 1) as nat);
            vstd::arithmetic::div_mod::lemma_div_denominator(n as int, 10, p);
            assert(decimal(n)[decimal(n).len() - 1 - i] == high[high.len() - 1 - (i - 1)]);
        } else {
            assert(n as int / 1 == n);
        }
    }
}

} // verus!
