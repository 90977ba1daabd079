//! Decimal text: the zero-padded numeral that forms the numeric part of a code.

use vstd::prelude::*;
use vstd::string::StringExecFns;

verus! {

/// Ten to the power `n`.
pub open spec fn pow10(n: nat) -> nat
    decreases n,
{
    if n == 0 {
        1
    } else {
        10 * pow10((n - 1) as nat)
    }
}

/// The largest digit width whose every value fits in 64 bits.
pub const MAX_DIGITS: usize = 19;

/// Whether `c` is one of the characters `0` to `9`.
pub open spec fn is_digit(c: char) -> bool {
    '0' <= c && c <= '9'
}

/// The character that stands for the digit `d`.
pub open spec fn digit_char(d: nat) -> char
    recommends
        d < 10,
{
    ((d + 48) as u8) as char
}

/// The digit that the character `c` stands for.
pub open spec fn digit_value(c: char) -> nat
    recommends
        is_digit(c),
{
    (c as u32 - 48) as nat
}

/// The decimal numeral of `value`, without leading zeros (`0` is written "0").
pub open spec fn decimal(value: nat) -> Seq<char>
    decreases value,
{
    if value < 10 {
        seq![digit_char(value)]
    } else {
        decimal(value / 10).push(digit_char(value % 10))
    }
}

/// A run of `n` zeros.
pub open spec fn zeros(n: nat) -> Seq<char> {
    Seq::new(n, |i: int| '0')
}

/// The decimal numeral of `value`, filled up on the left with zeros to `width`
/// characters. A numeral that is longer than `width` is left as it is.
pub open spec fn zero_padded(value: nat, width: nat) -> Seq<char> {
    let digits = decimal(value);
    if digits.len() >= width {
        digits
    } else {
        zeros((width - digits.len()) as nat) + digits
    }
}

/// A code: the prefix, then the number zero-padded to `width` characters.
pub open spec fn code_text(prefix: Seq<char>, value: nat, width: nat) -> Seq<char> {
    prefix + zero_padded(value, width)
}

/// Whether `code` is `prefix` followed by exactly `num_digits` digits.
pub open spec fn is_code(code: Seq<char>, prefix: Seq<char>, num_digits: nat) -> bool {
    &&& code.len() == prefix.len() + num_digits
    &&& code.take(prefix.len() as int) == prefix
    &&& forall|i: int| prefix.len() <= i < code.len() ==> is_digit(#[trigger] code[i])
}

/// The number that a string of digits denotes, read as a decimal numeral.
pub open spec fn decimal_value(digits: Seq<char>) -> nat
    decreases digits.len(),
{
    if digits.len() == 0 {
        0
    } else {
        10 * decimal_value(digits.drop_last()) + digit_value(digits.last())
    }
}

/// Digits given least significant first, as the characters of a numeral.
pub open spec fn numeral_of(low_first: Seq<u8>) -> Seq<char> {
    Seq::new(low_first.len(), |i: int| digit_char(low_first[low_first.len() - 1 - i] as nat))
}

/// Ten to the power of the largest width fits in 64 bits.
pub proof fn lemma_pow10_max()
    ensures
        pow10(MAX_DIGITS as nat) == 10_000_000_000_000_000_000,
        pow10(MAX_DIGITS as nat) <= u64::MAX,
{
    reveal_with_fuel(pow10, 20);
}

/// Powers of ten grow with the exponent.
pub proof fn lemma_pow10_increases(a: nat, b: nat)
    requires
        a <= b,
    ensures
        0 < pow10(a) <= pow10(b),
    decreases b,
{
    if a < b {
        lemma_pow10_increases(a, (b - 1) as nat);
    } else if a > 0 {
        lemma_pow10_increases((a - 1) as nat, (a - 1) as nat);
    }
}

/// The numeral of a number has at least one character, and only digits.
pub proof fn lemma_decimal_digits(value: nat)
    ensures
        decimal(value).len() >= 1,
        forall|i: int| 0 <= i < decimal(value).len() ==> is_digit(#[trigger] decimal(value)[i]),
    decreases value,
{
    if value >= 10 {
        lemma_decimal_digits(value / 10);
    }
}

/// A number below ten to the power `width` has a numeral of at most `width`
/// characters.
pub proof fn lemma_decimal_len(value: nat, width: nat)
    requires
        width >= 1,
        value < pow10(width),
    ensures
        decimal(value).len() <= width,
    decreases value,
{
    if value >= 10 {
        reveal_with_fuel(pow10, 2);
        lemma_decimal_len(value / 10, (width - 1) as nat);
    }
}

/// Reading a numeral gives back the number that was written.
pub proof fn lemma_decimal_value_of_decimal(value: nat)
    ensures
        decimal_value(decimal(value)) == value,
    decreases value,
{
    if value < 10 {
        assert(decimal(value).drop_last() =~= Seq::empty());
        assert(decimal_value(decimal(value).drop_last()) == 0);
    } else {
        lemma_decimal_value_of_decimal(value / 10);
        assert(decimal(value).drop_last() =~= decimal(value / 10));
    }
}

/// Zeros in front of a numeral do not change the number that it denotes.
pub proof fn lemma_leading_zeros(n: nat, digits: Seq<char>)
    ensures
        decimal_value(zeros(n) + digits) == decimal_value(digits),
    decreases digits.len(), n,
{
    let whole = zeros(n) + digits;
    if digits.len() > 0 {
        lemma_leading_zeros(n, digits.drop_last());
        assert(whole.drop_last() =~= zeros(n) + digits.drop_last());
    } else if n > 0 {
        lemma_leading_zeros((n - 1) as nat, digits);
        assert(whole.drop_last() =~= zeros((n - 1) as nat) + digits);
    } else {
        assert(whole =~= digits);
    }
}

/// The numeric part of a code: a number below ten to the power `width` is
/// written with exactly `width` characters, all of them digits, and read as a
/// decimal numeral they give the number back.
pub proof fn lemma_zero_padded(value: nat, width: nat)
    requires
        width >= 1,
        value < pow10(width),
    ensures
        zero_padded(value, width).len() == width,
        forall|i: int| 0 <= i < width ==> is_digit(#[trigger] zero_padded(value, width)[i]),
        decimal_value(zero_padded(value, width)) == value,
{
    lemma_decimal_len(value, width);
    lemma_decimal_digits(value);
    lemma_decimal_value_of_decimal(value);
    let digits = decimal(value);
    let padding = (width - digits.len()) as nat;
    lemma_leading_zeros(padding, digits);
    assert forall|i: int| 0 <= i < width implies is_digit(#[trigger] zero_padded(value, width)[i]) by {
        if i >= padding {
            assert(zero_padded(value, width)[i] == digits[i - padding]);
        }
    }
}

/// The shape of a code: the prefix as it was given, then exactly `width`
/// digits.
pub proof fn lemma_code_shape(prefix: Seq<char>, value: nat, width: nat)
    requires
        width >= 1,
        value < pow10(width),
    ensures
        code_text(prefix, value, width).len() == prefix.len() + width,
        code_text(prefix, value, width).take(prefix.len() as int) == prefix,
        code_text(prefix, value, width).skip(prefix.len() as int) == zero_padded(value, width),
        is_code(code_text(prefix, value, width), prefix, width),
{
    lemma_zero_padded(value, width);
    let code = code_text(prefix, value, width);
    assert forall|i: int| prefix.len() <= i < code.len() implies is_digit(#[trigger] code[i]) by {
        assert(code[i] == zero_padded(value, width)[i - prefix.len()]);
    }
    assert(code.take(prefix.len() as int) =~= prefix);
    assert(code.skip(prefix.len() as int) =~= zero_padded(value, width));
}

/// The one-character string for a digit.
fn digit_text(d: u8) -> (text: &'static str)
    requires
        d < 10,
    ensures
        text@ == seq![digit_char(d as nat)],
{
    proof {
        reveal_strlit("0");
        reveal_strlit("1");
        reveal_strlit("2");
        reveal_strlit("3");
        reveal_strlit("4");
        reveal_strlit("5");
        reveal_strlit("6");
        reveal_strlit("7");
        reveal_strlit("8");
        reveal_strlit("9");
    }
    let text = match d {
        0 => "0",
        1 => "1",
        2 => "2",
        3 => "3",
        4 => "4",
        5 => "5",
        6 => "6",
        7 => "7",
        8 => "8",
        _ => "9",
    };
    assert(text@ =~= seq![digit_char(d as nat)]);
    text
}

/// The digits of `value`, least significant first.
fn digits_of(value: u64) -> (low_first: Vec<u8>)
    ensures
        numeral_of(low_first@) == decimal(value as nat),
        forall|i: int| 0 <= i < low_first.len() ==> low_first[i] < 10,
{
    let mut low_first: Vec<u8> = Vec::new();
    let mut rest: u64 = value;
    loop
        invariant_except_break
            decimal(value as nat) =~= decimal(rest as nat) + numeral_of(low_first@),
            forall|i: int| 0 <= i < low_first.len() ==> low_first[i] < 10,
        ensures
            decimal(value as nat) =~= numeral_of(low_first@),
            forall|i: int| 0 <= i < low_first.len() ==> low_first[i] < 10,
        decreases rest,
    {
        let d: u8 = (rest % 10) as u8;
        let ghost before = low_first@;
        low_first.push(d);
        assert(numeral_of(low_first@) =~= seq![digit_char(d as nat)] + numeral_of(before));
        if rest < 10 {
            break;
        }
        rest = rest / 10;
    }
    low_first
}

/// Writes a code: `prefix`, then `value` in decimal, zero-padded to `width`
/// characters.
pub fn format_code(prefix: &str, value: u64, width: usize) -> (code: String)
    ensures
        code@ == code_text(prefix@, value as nat, width as nat),
{
    let low_first = digits_of(value);
    let n: usize = low_first.len();
    let mut code: String = prefix.to_owned();
    let mut k: usize = n;
    while k < width
        invariant
            n <= k,
            n < width ==> k <= width,
            n >= width ==> k == n,
            code@ =~= prefix@ + zeros((k - n) as nat),
        decreases width - k,
    {
        code.append("0");
        proof {
            reveal_strlit("0");
        }
        k = k + 1;
    }
    let ghost padding = zeros((k - n) as nat);
    let mut i: usize = n;
    while i > 0
        invariant
            i <= n,
            n == low_first.len(),
            n == decimal(value as nat).len(),
            padding == zeros((if n < width { width - n } else { 0 }) as nat),
            forall|j: int| 0 <= j < low_first.len() ==> low_first[j] < 10,
            code@ =~= prefix@ + padding + numeral_of(low_first@).take(n - i),
        decreases i,
    {
        i = i - 1;
        code.append(digit_text(low_first[i]));
    }
    proof {
        assert(numeral_of(low_first@).take(n as int) =~= numeral_of(low_first@));
        assert(code@ =~= code_text(prefix@, value as nat, width as nat));
    }
    code
}

} // verus!
