//! Requests for codes, as they are written on a command line: a count, or a
//! prefix and a count with a colon between them.

use crate::decimal::{
    decimal, decimal_value, digit_value, is_digit, lemma_decimal_digits,
    lemma_decimal_value_of_decimal,
};
use crate::distance::chars_of;
use vstd::prelude::*;
use vstd::string::StrSliceExecFns;

verus! {

/// How many codes are wanted under which prefix.
#[derive(Clone, Debug)]
pub struct WantedPrefix {
    /// What each code begins with; may be empty.
    pub prefix: String,
    /// How many codes are wanted.
    pub number: usize,
}

/// Why a text is not a count.
#[derive(Debug, PartialEq, Eq, Clone, Copy)]
pub enum CountError {
    /// There is no text.
    Empty,
    /// A character is not a digit, or a sign stands alone.
    InvalidDigit,
    /// The digits denote a number that a `usize` cannot hold.
    TooLarge,
}

/// The place of the first colon at or after `from`, or the length of the text
/// if there is none.
pub open spec fn colon_from(text: Seq<char>, from: nat) -> nat
    decreases text.len() - from,
{
    if from >= text.len() {
        text.len()
    } else if text[from as int] == ':' {
        from
    } else {
        colon_from(text, (from + 1) as nat)
    }
}

/// The place of the first colon, or the length of the text if it has none.
pub open spec fn first_colon(text: Seq<char>) -> nat {
    colon_from(text, 0)
}

/// Reads the first `n` characters as a decimal numeral, from the left. The
/// first character that cannot be taken decides the error: one that is not a
/// digit, or a digit with which the number outgrows a `usize`.
pub open spec fn read_digits(digits: Seq<char>, n: nat) -> Result<nat, CountError>
    recommends
        n <= digits.len(),
    decreases n,
{
    if n == 0 {
        Ok(0)
    } else {
        match read_digits(digits, (n - 1) as nat) {
            Err(e) => Err(e),
            Ok(above) => {
                let c = digits[n - 1];
                if !is_digit(c) {
                    Err(CountError::InvalidDigit)
                } else if 10 * above + digit_value(c) > usize::MAX {
                    Err(CountError::TooLarge)
                } else {
                    Ok(10 * above + digit_value(c))
                }
            },
        }
    }
}

/// The digits of a count: the text without the plus sign that may lead it.
pub open spec fn unsigned_part(text: Seq<char>) -> Seq<char> {
    if text.len() > 0 && text[0] == '+' {
        text.skip(1)
    } else {
        text
    }
}

/// The count that a text denotes: one or more digits, which a single plus sign
/// may precede, and nothing else.
pub open spec fn count_of(text: Seq<char>) -> Result<nat, CountError> {
    if text.len() == 0 {
        Err(CountError::Empty)
    } else if unsigned_part(text).len() == 0 {
        Err(CountError::InvalidDigit)
    } else {
        read_digits(unsigned_part(text), unsigned_part(text).len())
    }
}

/// The prefix that a request names: what stands before its first colon, or
/// nothing if it has no colon.
pub open spec fn prefix_part(text: Seq<char>) -> Seq<char> {
    if first_colon(text) < text.len() {
        text.take(first_colon(text) as int)
    } else {
        Seq::empty()
    }
}

/// The part of a request that holds the count: what follows its first colon, or
/// all of it if it has no colon.
pub open spec fn count_part(text: Seq<char>) -> Seq<char> {
    if first_colon(text) < text.len() {
        text.skip(first_colon(text) as int + 1)
    } else {
        text
    }
}

/// Finds the first colon.
fn find_colon(text: &Vec<char>) -> (at: usize)
    ensures
        at == first_colon(text@),
{
    let mut at: usize = 0;
    while at < text.len() && text[at] != ':'
        invariant
            at <= text.len(),
            first_colon(text@) == colon_from(text@, at as nat),
        decreases text.len() - at,
    {
        at = at + 1;
    }
    at
}

/// Reads the count that stands in `text` from the place `from` to the end.
#[verifier::loop_isolation(false)]
fn parse_count(text: &Vec<char>, from: usize) -> (count: Result<usize, CountError>)
    requires
        from <= text.len(),
    ensures
        match count {
            Ok(n) => count_of(text@.skip(from as int)) == Ok::<nat, CountError>(n as nat),
            Err(e) => count_of(text@.skip(from as int)) == Err::<nat, CountError>(e),
        },
{
    let ghost whole = text@.skip(from as int);
    if from == text.len() {
        return Err(CountError::Empty);
    }
    let start: usize = if text[from] == '+' {
        from + 1
    } else {
        from
    };
    let ghost digits = text@.skip(start as int);
    assert(digits =~= unsigned_part(whole));
    if start == text.len() {
        return Err(CountError::InvalidDigit);
    }
    let mut number: usize = 0;
    let mut i: usize = start;
    while i < text.len()
        invariant
            start <= i <= text.len(),
            digits == text@.skip(start as int),
            read_digits(digits, (i - start) as nat) == Ok::<nat, CountError>(number as nat),
        decreases text.len() - i,
    {
        let c = text[i];
        assert(digits[i - start] == c);
        if c < '0' || c > '9' {
            assert(read_digits(digits, digits.len()) == Err::<nat, CountError>(CountError::InvalidDigit)) by {
                lemma_read_fails_on(digits, (i - start + 1) as nat, digits.len());
            }
            return Err(CountError::InvalidDigit);
        }
        let d: usize = (c as u32 - 48) as usize;
        if number > (usize::MAX - d) / 10 {
            assert(read_digits(digits, digits.len()) == Err::<nat, CountError>(CountError::TooLarge)) by {
                lemma_read_fails_on(digits, (i - start + 1) as nat, digits.len());
            }
            return Err(CountError::TooLarge);
        }
        number = number * 10 + d;
        i = i + 1;
    }
    Ok(number)
}

/// Once reading has failed, it has failed for every longer stretch too, and
/// with the same error.
pub proof fn lemma_read_fails_on(digits: Seq<char>, n: nat, m: nat)
    requires
        n <= m,
        read_digits(digits, n) is Err,
    ensures
        read_digits(digits, m) == read_digits(digits, n),
    decreases m,
{
    if n < m {
        lemma_read_fails_on(digits, n, (m - 1) as nat);
    }
}

/// Whether a text holds digits only.
pub open spec fn all_digits(text: Seq<char>) -> bool {
    forall|i: int| 0 <= i < text.len() ==> is_digit(#[trigger] text[i])
}

/// The first colon is a colon, and no colon stands before it.
pub proof fn lemma_first_colon(text: Seq<char>)
    ensures
        first_colon(text) <= text.len(),
        first_colon(text) < text.len() ==> text[first_colon(text) as int] == ':',
        forall|i: int| 0 <= i < first_colon(text) ==> text[i] != ':',
{
    lemma_colon_from(text, 0);
}

/// From a given place on, the first colon is a colon, and no colon stands
/// between that place and it.
pub proof fn lemma_colon_from(text: Seq<char>, from: nat)
    requires
        from <= text.len(),
    ensures
        from <= colon_from(text, from) <= text.len(),
        colon_from(text, from) < text.len() ==> text[colon_from(text, from) as int] == ':',
        forall|i: int| from <= i < colon_from(text, from) ==> text[i] != ':',
    decreases text.len() - from,
{
    if from < text.len() && text[from as int] != ':' {
        lemma_colon_from(text, from + 1);
    }
}

/// Reading succeeds exactly on digits whose number a `usize` can hold, and
/// gives that number.
pub proof fn lemma_read_digits(digits: Seq<char>, n: nat)
    requires
        n <= digits.len(),
    ensures
        read_digits(digits, n) is Ok <==> all_digits(digits.take(n as int)) && decimal_value(
            digits.take(n as int),
        ) <= usize::MAX,
        read_digits(digits, n) matches Ok(v) ==> v == decimal_value(digits.take(n as int)),
        read_digits(digits, n) matches Err(e) ==> !(e is Empty),
    decreases n,
{
    let taken = digits.take(n as int);
    if n > 0 {
        let shorter = digits.take(n - 1);
        lemma_read_digits(digits, (n - 1) as nat);
        assert(taken.drop_last() =~= shorter);
        assert(taken.last() == digits[n - 1]);
        if all_digits(taken) {
            assert forall|i: int| 0 <= i < shorter.len() implies is_digit(#[trigger] shorter[i]) by {
                assert(shorter[i] == taken[i]);
            }
            assert(is_digit(taken[n - 1]));
        }
        if all_digits(shorter) && is_digit(digits[n - 1]) {
            assert forall|i: int| 0 <= i < taken.len() implies is_digit(#[trigger] taken[i]) by {
                if i < n - 1 {
                    assert(taken[i] == shorter[i]);
                }
            }
        }
    }
}

/// A text is a count exactly if, a leading plus sign apart, it is one or more
/// digits whose number a `usize` can hold; the count is that number.
pub proof fn lemma_count_of(text: Seq<char>)
    ensures
        count_of(text) is Ok <==> unsigned_part(text).len() > 0 && all_digits(unsigned_part(text))
            && decimal_value(unsigned_part(text)) <= usize::MAX,
        count_of(text) matches Ok(n) ==> n == decimal_value(unsigned_part(text)),
        count_of(text) == Err::<nat, CountError>(CountError::Empty) <==> text.len() == 0,
{
    let digits = unsigned_part(text);
    lemma_read_digits(digits, digits.len());
    assert(digits.take(digits.len() as int) =~= digits);
}

/// The numeral of a number that a `usize` can hold is read as the count that
/// it was written for.
pub proof fn lemma_count_of_decimal(n: nat)
    requires
        n <= usize::MAX,
    ensures
        count_of(decimal(n)) == Ok::<nat, CountError>(n),
{
    lemma_decimal_digits(n);
    lemma_decimal_value_of_decimal(n);
    assert(is_digit(decimal(n)[0]));
    lemma_count_of(decimal(n));
}

impl WantedPrefix {
    /// Reads a request. `"78"` asks for 78 codes without a prefix; `"AB3:78"`
    /// asks for 78 codes that begin with `AB3`. Only the first colon divides:
    /// what follows it must be a count.
    pub fn from_str(s: &str) -> (parsed: Result<WantedPrefix, CountError>)
        ensures
            match parsed {
                Ok(wanted) => wanted.prefix@ == prefix_part(s@) && count_of(count_part(s@)) == Ok::<
                    nat,
                    CountError,
                >(wanted.number as nat),
                Err(e) => count_of(count_part(s@)) == Err::<nat, CountError>(e),
            },
    {
        let text = chars_of(s);
        let at = find_colon(&text);
        if at < text.len() {
            match parse_count(&text, at + 1) {
                Ok(number) => {
                    let prefix = s.substring_char(0, at).to_owned();
                    Ok(WantedPrefix { prefix, number })
                },
                Err(e) => Err(e),
            }
        } else {
            assert(text@.skip(0) =~= text@);
            match parse_count(&text, 0) {
                Ok(number) => {
                    let prefix = String::new();
                    Ok(WantedPrefix { prefix, number })
                },
                Err(e) => Err(e),
            }
        }
    }
}

} // verus!
