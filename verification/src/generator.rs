//! The code generator: rejection sampling under a minimum Hamming distance.

use crate::decimal::{
    code_text, format_code, is_code, lemma_code_shape, lemma_pow10_increases, lemma_pow10_max,
    pow10, MAX_DIGITS,
};
use crate::distance::{
    accepted_by, accepts, chars_of, codes_of, holds_shorter, lemma_accepted_keeps_separation,
    lemma_rejects_when_too_short, pairwise_separated, separated_after,
};
use crate::source::{
    keyed_source, sample_below, sample_step, seeded_source, source_from_key, source_from_number,
};
use rand_chacha::ChaCha8Rng;
use vstd::prelude::*;

verus! {

/// What a random source is started from.
#[derive(Debug, Clone, Copy)]
pub enum Seed {
    /// A 64-bit number, from which the stream's key is derived.
    Number(u64),
    /// The 32 bytes of the stream's key.
    Key([u8; 32]),
}

/// Why a generator cannot be made.
#[derive(Debug, PartialEq, Eq, Clone, Copy)]
pub enum ConfigError {
    /// A code needs at least one digit.
    NoDigits,
    /// The numbers of so many digits do not all fit in 64 bits.
    TooManyDigits,
}

/// The generator as contracts see it.
pub struct GeneratorView {
    /// The state of the random stream.
    pub source: ChaCha8Rng,
    /// The number of digits in the numeric part of a code.
    pub num_digits: nat,
    /// The codes in use, oldest first.
    pub used: Seq<Seq<char>>,
}

/// Produces codes of a fixed digit width, each at least a given Hamming
/// distance away from every code in use, and keeps the list of codes in use.
pub struct GenerateCodes {
    prng: ChaCha8Rng,
    range: DigitRange,
    used: Vec<Vec<char>>,
}

/// The numbers that have a given count of digits: all below a power of ten,
/// which is worked out once.
struct DigitRange {
    num_digits: usize,
    upper: u64,
}

impl DigitRange {
    #[verifier::type_invariant]
    spec fn well_formed(&self) -> bool {
        &&& 1 <= self.num_digits <= MAX_DIGITS
        &&& self.upper == pow10(self.num_digits as nat)
    }
}

/// The stream state that a seed stands for.
pub open spec fn source_of(seed: Seed) -> ChaCha8Rng {
    match seed {
        Seed::Number(n) => seeded_source(n),
        Seed::Key(key) => keyed_source(key@),
    }
}

/// A generator fresh from its seed, with no code in use.
pub open spec fn initial(seed: Seed, num_digits: nat) -> GeneratorView {
    GeneratorView { source: source_of(seed), num_digits, used: Seq::empty() }
}

/// The exclusive upper end of the range that the numbers are drawn from.
pub open spec fn range_end(g: GeneratorView) -> u64 {
    pow10(g.num_digits) as u64
}

/// The candidate that the next draw yields under `prefix`.
pub open spec fn candidate(g: GeneratorView, prefix: Seq<char>) -> Seq<char> {
    code_text(prefix, sample_step(g.source, range_end(g)).0 as nat, g.num_digits)
}

/// The generator after one draw: the stream has moved on, nothing else changed.
pub open spec fn after_draw(g: GeneratorView) -> GeneratorView {
    GeneratorView { source: sample_step(g.source, range_end(g)).1, ..g }
}

/// The generator with one more code in use.
pub open spec fn with_used(g: GeneratorView, code: Seq<char>) -> GeneratorView {
    GeneratorView { used: g.used.push(code), ..g }
}

/// The search for a code: up to `attempts` candidates are drawn in turn, and the
/// first that the codes in use accept is taken into use. Gives the generator as
/// the search leaves it, and the code found, if one was.
pub open spec fn search(g: GeneratorView, prefix: Seq<char>, min: nat, attempts: nat) -> (
    GeneratorView,
    Option<Seq<char>>,
)
    decreases attempts,
{
    if attempts == 0 {
        (g, None)
    } else if accepts(g.used, candidate(g, prefix), min) {
        (with_used(after_draw(g), candidate(g, prefix)), Some(candidate(g, prefix)))
    } else {
        search(after_draw(g), prefix, min, (attempts - 1) as nat)
    }
}

/// The generator after `n` draws.
pub open spec fn after_draws(g: GeneratorView, n: nat) -> GeneratorView
    decreases n,
{
    if n == 0 {
        g
    } else {
        after_draws(after_draw(g), (n - 1) as nat)
    }
}

/// The candidate that the draw after `k` earlier ones yields under `prefix`.
pub open spec fn nth_candidate(g: GeneratorView, prefix: Seq<char>, k: nat) -> Seq<char> {
    candidate(after_draws(g, k), prefix)
}

/// Whether the codes in use reject each of the first `k` candidates.
pub open spec fn rejects_first(g: GeneratorView, prefix: Seq<char>, min: nat, k: nat) -> bool {
    forall|j: nat| j < k ==> !accepts(g.used, #[trigger] nth_candidate(g, prefix, j), min)
}

/// Drawing changes the stream and nothing else.
pub proof fn lemma_draws_keep_codes(g: GeneratorView, n: nat)
    ensures
        after_draws(g, n).used == g.used,
        after_draws(g, n).num_digits == g.num_digits,
    decreases n,
{
    if n > 0 {
        lemma_draws_keep_codes(after_draw(g), (n - 1) as nat);
    }
}

/// What a search comes to. The number returned is the count of candidates that
/// were rejected. If it is below `attempts`, the candidate drawn next was the
/// first to be accepted: it is the code found, it is in use afterwards, and the
/// stream stands behind its draw. If it equals `attempts`, every candidate was
/// rejected: nothing was found, and only the stream has moved.
pub proof fn lemma_search_outcome(g: GeneratorView, prefix: Seq<char>, min: nat, attempts: nat) -> (k: nat)
    ensures
        k <= attempts,
        rejects_first(g, prefix, min, k),
        k < attempts ==> accepts(g.used, nth_candidate(g, prefix, k), min),
        k < attempts ==> search(g, prefix, min, attempts) == (
            with_used(after_draws(g, k + 1), nth_candidate(g, prefix, k)),
            Some(nth_candidate(g, prefix, k)),
        ),
        k == attempts ==> search(g, prefix, min, attempts) == (after_draws(g, attempts), None::<Seq<char>>),
    decreases attempts,
{
    if attempts == 0 {
        0
    } else if accepts(g.used, candidate(g, prefix), min) {
        assert(after_draws(g, 1) == after_draw(g)) by {
            reveal_with_fuel(after_draws, 2);
        }
        0
    } else {
        let next = after_draw(g);
        let k = lemma_search_outcome(next, prefix, min, (attempts - 1) as nat);
        assert forall|j: nat| j < k + 1 implies !accepts(g.used, #[trigger] nth_candidate(g, prefix, j), min) by {
            if j > 0 {
                assert(nth_candidate(g, prefix, j) == nth_candidate(next, prefix, (j - 1) as nat));
            }
        }
        assert(nth_candidate(g, prefix, k + 1) == nth_candidate(next, prefix, k));
        k + 1
    }
}

/// A search changes the codes in use only by the code that it finds, which they
/// accepted, and leaves the digit width alone.
pub proof fn lemma_search_effect(g: GeneratorView, prefix: Seq<char>, min: nat, attempts: nat)
    ensures
        search(g, prefix, min, attempts).0.num_digits == g.num_digits,
        match search(g, prefix, min, attempts).1 {
            Some(code) => accepts(g.used, code, min) && search(g, prefix, min, attempts).0.used
                == g.used.push(code),
            None => search(g, prefix, min, attempts).0.used == g.used,
        },
{
    let k = lemma_search_outcome(g, prefix, min, attempts);
    lemma_draws_keep_codes(g, k + 1);
    lemma_draws_keep_codes(g, attempts);
}

/// Codes that are at least `min` away from those before them are so after a
/// search at that distance: a code that joins them is as far from each of them.
pub proof fn lemma_search_keeps_separation(
    g: GeneratorView,
    prefix: Seq<char>,
    min: nat,
    attempts: nat,
    first: nat,
)
    requires
        separated_after(g.used, first, min),
    ensures
        separated_after(search(g, prefix, min, attempts).0.used, first, min),
{
    lemma_search_effect(g, prefix, min, attempts);
    if let Some(code) = search(g, prefix, min, attempts).1 {
        lemma_accepted_keeps_separation(g.used, code, first, min);
    }
}

/// A run: one search for each prefix of the list, in their order, each with up
/// to `attempts` candidates. Gives the generator as the run leaves it.
pub open spec fn run(g: GeneratorView, prefixes: Seq<Seq<char>>, min: nat, attempts: nat) -> GeneratorView
    decreases prefixes.len(),
{
    if prefixes.len() == 0 {
        g
    } else {
        run(search(g, prefixes[0], min, attempts).0, prefixes.skip(1), min, attempts)
    }
}

/// A run keeps the codes that were in use, in their places, and adds to them
/// at the end.
pub proof fn lemma_run_keeps_codes(g: GeneratorView, prefixes: Seq<Seq<char>>, min: nat, attempts: nat)
    ensures
        g.used.len() <= run(g, prefixes, min, attempts).used.len(),
        run(g, prefixes, min, attempts).used.take(g.used.len() as int) == g.used,
        run(g, prefixes, min, attempts).num_digits == g.num_digits,
    decreases prefixes.len(),
{
    let end = run(g, prefixes, min, attempts);
    if prefixes.len() > 0 {
        let next = search(g, prefixes[0], min, attempts).0;
        lemma_search_effect(g, prefixes[0], min, attempts);
        lemma_run_keeps_codes(next, prefixes.skip(1), min, attempts);
        assert(end.used.take(g.used.len() as int) =~= end.used.take(next.used.len() as int).take(
            g.used.len() as int,
        ));
        assert(next.used.take(g.used.len() as int) =~= g.used);
    } else {
        assert(end.used.take(g.used.len() as int) =~= g.used);
    }
}

/// A run at one distance keeps codes apart that were apart.
pub proof fn lemma_run_keeps_separation(
    g: GeneratorView,
    prefixes: Seq<Seq<char>>,
    min: nat,
    attempts: nat,
    first: nat,
)
    requires
        separated_after(g.used, first, min),
    ensures
        separated_after(run(g, prefixes, min, attempts).used, first, min),
    decreases prefixes.len(),
{
    if prefixes.len() > 0 {
        lemma_search_keeps_separation(g, prefixes[0], min, attempts, first);
        lemma_run_keeps_separation(
            search(g, prefixes[0], min, attempts).0,
            prefixes.skip(1),
            min,
            attempts,
            first,
        );
    }
}

/// After a run at one distance, every code that it found is at least that far
/// from every code that was in use before it, whether that one was found in the
/// run or supplied beforehand. If the codes supplied were that far apart among
/// themselves, or if none were supplied, all codes in use are pairwise apart.
pub proof fn lemma_run_separated(g: GeneratorView, prefixes: Seq<Seq<char>>, min: nat, attempts: nat)
    ensures
        separated_after(run(g, prefixes, min, attempts).used, g.used.len(), min),
        pairwise_separated(g.used, min) ==> pairwise_separated(run(g, prefixes, min, attempts).used, min),
        g.used.len() == 0 ==> pairwise_separated(run(g, prefixes, min, attempts).used, min),
{
    lemma_run_keeps_separation(g, prefixes, min, attempts, g.used.len());
    if pairwise_separated(g.used, min) {
        lemma_run_keeps_separation(g, prefixes, min, attempts, 0);
    }
}

/// The code found depends on nothing but the state of the generator and the
/// request: two generators that are made from one seed with one digit width,
/// or that agree in stream, width and codes in use for another reason, find
/// the same code on the same request and agree again afterwards.
pub proof fn lemma_search_deterministic(
    a: GenerateCodes,
    b: GenerateCodes,
    prefix: Seq<char>,
    min: nat,
    attempts: nat,
)
    requires
        a@ == b@,
    ensures
        search(a@, prefix, min, attempts) == search(b@, prefix, min, attempts),
{
}

/// Two generators that agree before a run of the same requests agree after it,
/// and so in every code that the run has taken into use.
pub proof fn lemma_run_deterministic(
    a: GenerateCodes,
    b: GenerateCodes,
    prefixes: Seq<Seq<char>>,
    min: nat,
    attempts: nat,
)
    requires
        a@ == b@,
    ensures
        run(a@, prefixes, min, attempts) == run(b@, prefixes, min, attempts),
{
}

/// At the distance zero the first candidate drawn is accepted.
pub proof fn lemma_search_at_zero(g: GeneratorView, prefix: Seq<char>, attempts: nat)
    requires
        attempts > 0,
    ensures
        search(g, prefix, 0, attempts) == (
            with_used(after_draw(g), candidate(g, prefix)),
            Some(candidate(g, prefix)),
        ),
{
}

/// With no code in use the first candidate drawn is accepted, whatever the
/// distance asked for.
pub proof fn lemma_search_when_unused(g: GeneratorView, prefix: Seq<char>, min: nat, attempts: nat)
    requires
        attempts > 0,
        g.used.len() == 0,
    ensures
        search(g, prefix, min, attempts) == (
            with_used(after_draw(g), candidate(g, prefix)),
            Some(candidate(g, prefix)),
        ),
{
}

/// While a code is in use that is shorter than the distance asked for, no
/// search finds anything: every candidate is rejected, however many are drawn.
pub proof fn lemma_search_infeasible(g: GeneratorView, prefix: Seq<char>, min: nat, attempts: nat, i: int)
    requires
        0 <= i < g.used.len(),
        g.used[i].len() < min,
    ensures
        search(g, prefix, min, attempts) == (after_draws(g, attempts), None::<Seq<char>>),
    decreases attempts,
{
    if attempts > 0 {
        lemma_rejects_when_too_short(g.used, candidate(g, prefix), min, i);
        lemma_search_infeasible(after_draw(g), prefix, min, (attempts - 1) as nat, i);
    }
}

/// What a search found, as the characters of the code.
pub open spec fn text_of(found: Option<String>) -> Option<Seq<char>> {
    match found {
        Some(code) => Some(code@),
        None => None,
    }
}

impl View for GenerateCodes {
    type V = GeneratorView;

    closed spec fn view(&self) -> GeneratorView {
        GeneratorView {
            source: self.prng,
            num_digits: self.range.num_digits as nat,
            used: codes_of(self.used@),
        }
    }
}

/// Computes ten to the power `n`.
fn power_of_ten(n: usize) -> (p: u64)
    requires
        n <= MAX_DIGITS,
    ensures
        p == pow10(n as nat),
        p > 0,
{
    let mut p: u64 = 1;
    let mut i: usize = 0;
    while i < n
        invariant
            i <= n,
            n <= MAX_DIGITS,
            p == pow10(i as nat),
            p > 0,
        decreases n - i,
    {
        proof {
            lemma_pow10_increases((i + 1) as nat, MAX_DIGITS as nat);
            lemma_pow10_max();
        }
        p = p * 10;
        i = i + 1;
    }
    p
}

impl GenerateCodes {
    /// Makes a generator with no code in use, its stream started from `seed`.
    pub fn new(seed: Seed, num_digits: usize) -> (made: Result<GenerateCodes, ConfigError>)
        ensures
            match made {
                Ok(g) => 1 <= num_digits <= MAX_DIGITS && g@ == initial(seed, num_digits as nat),
                Err(ConfigError::NoDigits) => num_digits == 0,
                Err(ConfigError::TooManyDigits) => num_digits > MAX_DIGITS,
            },
    {
        if num_digits == 0 {
            return Err(ConfigError::NoDigits);
        }
        if num_digits > MAX_DIGITS {
            return Err(ConfigError::TooManyDigits);
        }
        let prng = match seed {
            Seed::Number(n) => source_from_number(n),
            Seed::Key(key) => source_from_key(key),
        };
        let upper = power_of_ten(num_digits);
        let g = GenerateCodes { prng, range: DigitRange { num_digits, upper }, used: Vec::new() };
        assert(g@.used =~= Seq::empty());
        Ok(g)
    }

    /// The number of codes in use.
    pub fn used_len(&self) -> (n: usize)
        ensures
            n == self@.used.len(),
    {
        self.used.len()
    }

    /// Takes a code into use that was made elsewhere. Any string is taken as it
    /// is: nothing is asked of its length or of its characters.
    pub fn add_used(&mut self, code: &str)
        ensures
            final(self)@ == with_used(old(self)@, code@),
    {
        let chars = chars_of(code);
        self.used.push(chars);
        assert(final(self)@.used =~= old(self)@.used.push(code@));
    }

    /// Draws a number from the range of the digit width and writes it as a
    /// candidate under `prefix`. The codes in use are not touched.
    pub fn generate_candidate(&mut self, prefix: &str) -> (code: String)
        ensures
            code@ == candidate(old(self)@, prefix@),
            final(self)@ == after_draw(old(self)@),
            is_code(code@, prefix@, old(self)@.num_digits),
    {
        proof {
            use_type_invariant(&self.range);
            lemma_pow10_increases(0, self.range.num_digits as nat);
        }
        let value = sample_below(&mut self.prng, self.range.upper);
        proof {
            lemma_code_shape(prefix@, value as nat, self.range.num_digits as nat);
        }
        format_code(prefix, value, self.range.num_digits)
    }

    /// Whether the codes in use accept `candidate` at the distance `min_hamming_distance`.
    pub fn ok(&self, candidate: &str, min_hamming_distance: usize) -> (b: bool)
        ensures
            b == accepts(self@.used, candidate@, min_hamming_distance as nat),
    {
        let chars = chars_of(candidate);
        accepted_by(&self.used, &chars, min_hamming_distance)
    }

    /// Draws candidates under `prefix` until one is accepted, at most
    /// `max_attempts` of them. The accepted candidate is taken into use and
    /// returned; `None` says that every candidate drawn was rejected, and then
    /// only the stream has moved.
    #[verifier::loop_isolation(false)]
    pub fn new_code(&mut self, prefix: &str, min_hamming_distance: usize, max_attempts: usize) -> (found: Option<String>)
        ensures
            (final(self)@, text_of(found)) == search(
                old(self)@,
                prefix@,
                min_hamming_distance as nat,
                max_attempts as nat,
            ),
            final(self)@.num_digits == old(self)@.num_digits,
            match found {
                Some(code) => {
                    &&& is_code(code@, prefix@, old(self)@.num_digits)
                    &&& accepts(old(self)@.used, code@, min_hamming_distance as nat)
                    &&& final(self)@.used == old(self)@.used.push(code@)
                },
                None => final(self)@.used == old(self)@.used,
            },
            max_attempts > 0 && (min_hamming_distance == 0 || old(self)@.used.len() == 0)
                ==> found is Some,
            holds_shorter(old(self)@.used, min_hamming_distance as nat) ==> found is None,
            pairwise_separated(old(self)@.used, min_hamming_distance as nat) ==> pairwise_separated(
                final(self)@.used,
                min_hamming_distance as nat,
            ),
    {
        let ghost start = self@;
        let ghost min = min_hamming_distance as nat;
        proof {
            lemma_search_effect(start, prefix@, min, max_attempts as nat);
            if pairwise_separated(start.used, min) {
                lemma_search_keeps_separation(start, prefix@, min, max_attempts as nat, 0);
            }
            if holds_shorter(start.used, min) {
                let i = choose|i: int| 0 <= i < start.used.len() && (#[trigger] start.used[i]).len() < min;
                lemma_search_infeasible(start, prefix@, min, max_attempts as nat, i);
            }
        }
        let mut attempts: usize = 0;
        while attempts < max_attempts
            invariant
                attempts <= max_attempts,
                search(start, prefix@, min, max_attempts as nat) == search(
                    self@,
                    prefix@,
                    min,
                    (max_attempts - attempts) as nat,
                ),
                self@.num_digits == start.num_digits,
            decreases max_attempts - attempts,
        {
            let code = self.generate_candidate(prefix);
            let chars = chars_of(code.as_str());
            if accepted_by(&self.used, &chars, min_hamming_distance) {
                let ghost before = self@;
                self.used.push(chars);
                assert(self@.used =~= before.used.push(code@));
                return Some(code);
            }
            attempts = attempts + 1;
        }
        None
    }

    /// The number of digits in the numeric part of each code.
    pub fn num_digits(&self) -> (n: usize)
        ensures
            n == self@.num_digits,
            1 <= n <= MAX_DIGITS,
    {
        proof {
            use_type_invariant(&self.range);
        }
        self.range.num_digits
    }
}

} // verus!
