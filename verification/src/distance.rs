//! Hamming distance between codes, and the acceptance rule built on it.

use vstd::prelude::*;

verus! {

/// The number of positions below `n` at which `a` and `b` hold different characters.
pub open spec fn differing(a: Seq<char>, b: Seq<char>, n: nat) -> nat
    recommends
        n <= a.len(),
        n <= b.len(),
    decreases n,
{
    if n == 0 {
        0
    } else {
        let rest = differing(a, b, (n - 1) as nat);
        if a[n - 1] != b[n - 1] {
            rest + 1
        } else {
            rest
        }
    }
}

/// The length of the shorter of two codes.
pub open spec fn common_len(a: Seq<char>, b: Seq<char>) -> nat {
    if a.len() <= b.len() {
        a.len()
    } else {
        b.len()
    }
}

/// The Hamming distance of two codes: the number of positions at which they
/// differ, counted over the length of the shorter one. Characters of the longer
/// code beyond that length are not compared.
pub open spec fn hamming(a: Seq<char>, b: Seq<char>) -> nat {
    differing(a, b, common_len(a, b))
}

/// The acceptance rule: a candidate may join the codes in use if its Hamming
/// distance to each of them is at least `min`.
pub open spec fn accepts(used: Seq<Seq<char>>, candidate: Seq<char>, min: nat) -> bool {
    forall|i: int| 0 <= i < used.len() ==> hamming(#[trigger] used[i], candidate) >= min
}

/// Whether each code at the place `first` or behind it is at least `min` away
/// from every code that stands before it in the list.
pub open spec fn separated_after(codes: Seq<Seq<char>>, first: nat, min: nat) -> bool {
    forall|i: int, j: int|
        0 <= i < j < codes.len() && first <= j ==> hamming(#[trigger] codes[i], #[trigger] codes[j])
            >= min
}

/// Whether any two codes at different places of the list are at least `min` apart.
pub open spec fn pairwise_separated(codes: Seq<Seq<char>>, min: nat) -> bool {
    separated_after(codes, 0, min)
}

/// Whether some code of the list has fewer than `min` characters. No candidate
/// can be `min` positions away from such a code.
pub open spec fn holds_shorter(codes: Seq<Seq<char>>, min: nat) -> bool {
    exists|i: int| 0 <= i < codes.len() && (#[trigger] codes[i]).len() < min
}

/// Counting differences does not depend on which code is named first.
pub proof fn lemma_differing_symmetric(a: Seq<char>, b: Seq<char>, n: nat)
    ensures
        differing(a, b, n) == differing(b, a, n),
    decreases n,
{
    if n > 0 {
        lemma_differing_symmetric(a, b, (n - 1) as nat);
    }
}

/// No more positions differ than were compared.
pub proof fn lemma_differing_bounded(a: Seq<char>, b: Seq<char>, n: nat)
    ensures
        differing(a, b, n) <= n,
    decreases n,
{
    if n > 0 {
        lemma_differing_bounded(a, b, (n - 1) as nat);
    }
}

/// A code differs from itself nowhere.
pub proof fn lemma_differing_same(a: Seq<char>, n: nat)
    ensures
        differing(a, a, n) == 0,
    decreases n,
{
    if n > 0 {
        lemma_differing_same(a, (n - 1) as nat);
    }
}

/// The Hamming distance is symmetric.
pub proof fn lemma_hamming_symmetric(a: Seq<char>, b: Seq<char>)
    ensures
        hamming(a, b) == hamming(b, a),
{
    lemma_differing_symmetric(a, b, common_len(a, b));
}

/// The Hamming distance of two codes is at most the length of the shorter one.
pub proof fn lemma_hamming_bounded(a: Seq<char>, b: Seq<char>)
    ensures
        hamming(a, b) <= common_len(a, b),
        hamming(a, b) <= a.len(),
        hamming(a, b) <= b.len(),
{
    lemma_differing_bounded(a, b, common_len(a, b));
}

/// A code is at distance zero from itself, so while it is in use it is accepted
/// again only at the distance zero.
pub proof fn lemma_hamming_same(a: Seq<char>)
    ensures
        hamming(a, a) == 0,
{
    lemma_differing_same(a, common_len(a, a));
}

/// With no code in use, every candidate is accepted, whatever the distance
/// asked for.
pub proof fn lemma_accepts_when_unused(candidate: Seq<char>, min: nat)
    ensures
        accepts(Seq::empty(), candidate, min),
{
}

/// At the distance zero every candidate is accepted, whatever is in use.
pub proof fn lemma_accepts_at_zero(used: Seq<Seq<char>>, candidate: Seq<char>)
    ensures
        accepts(used, candidate, 0),
{
}

/// A candidate is rejected whenever a code in use, or the candidate itself, is
/// shorter than the distance asked for: so few positions cannot differ so often.
pub proof fn lemma_rejects_when_too_short(used: Seq<Seq<char>>, candidate: Seq<char>, min: nat, i: int)
    requires
        0 <= i < used.len(),
        used[i].len() < min || candidate.len() < min,
    ensures
        !accepts(used, candidate, min),
{
    lemma_hamming_bounded(used[i], candidate);
}

/// Codes that are apart from those before them stay so when a candidate that
/// all of them accept joins the list at its end.
pub proof fn lemma_accepted_keeps_separation(
    used: Seq<Seq<char>>,
    candidate: Seq<char>,
    first: nat,
    min: nat,
)
    requires
        separated_after(used, first, min),
        accepts(used, candidate, min),
    ensures
        separated_after(used.push(candidate), first, min),
        first == 0 ==> pairwise_separated(used.push(candidate), min),
{
    let grown = used.push(candidate);
    assert forall|i: int, j: int| 0 <= i < j < grown.len() && first <= j implies hamming(
        #[trigger] grown[i],
        #[trigger] grown[j],
    ) >= min by {
        if j < used.len() {
            assert(grown[i] == used[i] && grown[j] == used[j]);
        } else {
            assert(grown[i] == used[i] && grown[j] == candidate);
        }
    }
}

/// The codes that a list of character vectors holds.
pub open spec fn codes_of(list: Seq<Vec<char>>) -> Seq<Seq<char>> {
    Seq::new(list.len(), |i: int| list[i]@)
}

/// The characters of a string, in order.
pub fn chars_of(s: &str) -> (chars: Vec<char>)
    ensures
        chars@ == s@,
{
    let mut chars: Vec<char> = Vec::new();
    for c in it: s.chars()
        invariant
            chars@ == it.seq().take(it.index()),
    {
        chars.push(c);
    }
    chars
}

/// Counts the positions at which two codes differ, over the length of the
/// shorter one.
pub fn distance_of(a: &Vec<char>, b: &Vec<char>) -> (d: usize)
    ensures
        d == hamming(a@, b@),
{
    let n: usize = if a.len() <= b.len() {
        a.len()
    } else {
        b.len()
    };
    let mut d: usize = 0;
    let mut i: usize = 0;
    while i < n
        invariant
            n == common_len(a@, b@),
            i <= n,
            d <= i,
            d == differing(a@, b@, i as nat),
        decreases n - i,
    {
        if a[i] != b[i] {
            d = d + 1;
        }
        i = i + 1;
    }
    d
}

/// The Hamming distance of two strings, counted in characters.
pub fn hamming_distance(a: &str, b: &str) -> (d: usize)
    ensures
        d == hamming(a@, b@),
{
    let a_chars = chars_of(a);
    let b_chars = chars_of(b);
    distance_of(&a_chars, &b_chars)
}

/// Tests a candidate against every code in use, stopping at the first that is
/// too close.
pub fn accepted_by(used: &Vec<Vec<char>>, candidate: &Vec<char>, min: usize) -> (b: bool)
    ensures
        b == accepts(codes_of(used@), candidate@, min as nat),
{
    let mut i: usize = 0;
    while i < used.len()
        invariant
            i <= used.len(),
            forall|j: int| 0 <= j < i ==> hamming(#[trigger] codes_of(used@)[j], candidate@) >= min,
        decreases used.len() - i,
    {
        if distance_of(&used[i], candidate) < min {
            assert(codes_of(used@)[i as int] == used@[i as int]@);
            return false;
        }
        assert(codes_of(used@)[i as int] == used@[i as int]@);
        i = i + 1;
    }
    true
}

} // verus!
