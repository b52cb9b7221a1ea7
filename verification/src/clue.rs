use std::collections::HashMap;
use vstd::prelude::*;
use vstd::std_specs::iter::IteratorSpec;
use vstd::string::StringExecFns;
use vstd::string::StringSliceAdditionalSpecFns;
use vstd::utf8::is_ascii_chars;
use crate::text::{
    lowercased,
    uppercased,
    ascii_lower_all,
    ascii_upper_all,
    ascii_upper,
    to_lowercase,
    to_uppercase,
    push_char,
    chars_of,
    concat3,
};

verus! {

/// Wordle feedback for a single character position.
#[derive(Debug, Clone, Copy, PartialEq, Eq, Structural)]
pub enum Hint {
    /// Correct letter, correct position.
    Green,
    /// Correct letter, wrong position.
    Yellow,
    /// The letter is not in the word (beyond the green and yellow ones).
    Gray,
}

/// A single guess together with its feedback.
pub struct Clue {
    pub word: [char; 5],
    pub hints: [Hint; 5],
}

/// The position rule at position `i`: a green letter sits there, a yellow
/// letter does not.
pub open spec fn rule_at(word: Seq<char>, cw: Seq<char>, hints: Seq<Hint>, i: int) -> bool {
    &&& hints[i] == Hint::Green ==> word[i] == cw[i]
    &&& hints[i] == Hint::Yellow ==> word[i] != cw[i]
}

/// Position rule of one clue: at every green or yellow position the word
/// has a letter, and the rule holds there.
pub open spec fn spec_matches_positions(word: Seq<char>, cw: Seq<char>, hints: Seq<Hint>) -> bool {
    forall|i: int|
        0 <= i < 5 && #[trigger] hints[i] != Hint::Gray ==> i < word.len() && rule_at(
            word,
            cw,
            hints,
            i,
        )
}

/// Checking the position rule from position `i` on, left to right and
/// stopping at the first failure, never reads past the end of `word`.
pub open spec fn readable_from(word: Seq<char>, cw: Seq<char>, hints: Seq<Hint>, i: int) -> bool
    decreases 5 - i,
{
    if i >= 5 {
        true
    } else if hints[i] == Hint::Gray {
        readable_from(word, cw, hints, i + 1)
    } else if i >= word.len() {
        false
    } else if !rule_at(word, cw, hints, i) {
        true
    } else {
        readable_from(word, cw, hints, i + 1)
    }
}

/// The position rule can be checked without reading past the end of
/// `word`: checking goes left to right and stops at the first failure.
pub open spec fn positions_readable(word: Seq<char>, cw: Seq<char>, hints: Seq<Hint>) -> bool {
    readable_from(word, cw, hints, 0)
}

proof fn lemma_long_word_readable_from(word: Seq<char>, cw: Seq<char>, hints: Seq<Hint>, i: int)
    requires
        word.len() >= 5,
        0 <= i,
    ensures
        readable_from(word, cw, hints, i),
    decreases 5 - i,
{
    if i < 5 {
        lemma_long_word_readable_from(word, cw, hints, i + 1);
    }
}

/// A word of five letters or more can always be checked.
pub proof fn lemma_long_word_readable(word: Seq<char>, cw: Seq<char>, hints: Seq<Hint>)
    requires
        word.len() >= 5,
    ensures
        positions_readable(word, cw, hints),
{
    lemma_long_word_readable_from(word, cw, hints, 0);
}

/// Check that each letter is (or is not) at the exact position the clue requires.
pub fn matches_positions(word: &[char], clue: &Clue) -> (r: bool)
    requires
        positions_readable(word@, clue.word@, clue.hints@),
    ensures
        r == spec_matches_positions(word@, clue.word@, clue.hints@),
{
    let mut i: usize = 0;
    while i < 5
        invariant
            0 <= i <= 5,
            readable_from(word@, clue.word@, clue.hints@, i as int),
            forall|j: int|
                0 <= j < i && #[trigger] clue.hints@[j] != Hint::Gray ==> j < word@.len() && rule_at(
                    word@,
                    clue.word@,
                    clue.hints@,
                    j,
                ),
        decreases 5 - i,
    {
        let c = clue.word[i];
        match clue.hints[i] {
            Hint::Green => {
                if word[i] != c {
                    return false;
                }
            },
            Hint::Yellow => {
                if word[i] == c {
                    return false;
                }
            },
            Hint::Gray => {},
        }
        i += 1;
    }
    true
}

/// The key under which a letter is filed in the count and constraint maps:
/// its Unicode scalar value.
pub open spec fn letter_key(c: char) -> u32 {
    c as u32
}

/// Per-letter constraint derived from a clue, keyed by `letter_key`:
/// (number of green or yellow occurrences, whether a gray occurrence exists).
pub type LetterConstraints = HashMap<u32, (usize, bool)>;

/// Number of positions below `n` at which the clue shows letter key `k`
/// as green or yellow.
pub open spec fn present_count(cw: Seq<char>, hints: Seq<Hint>, k: u32, n: int) -> nat
    decreases n,
{
    if n <= 0 {
        0
    } else {
        present_count(cw, hints, k, n - 1) + if letter_key(cw[n - 1]) == k && hints[n - 1]
            != Hint::Gray {
            1nat
        } else {
            0nat
        }
    }
}

/// Whether some position below `n` shows letter key `k` as gray.
pub open spec fn gray_seen(cw: Seq<char>, hints: Seq<Hint>, k: u32, n: int) -> bool {
    exists|i: int| 0 <= i < n && letter_key(cw[i]) == k && hints[i] == Hint::Gray
}

/// Whether letter key `k` occurs among the first `n` letters of the guess.
pub open spec fn key_occurs(cw: Seq<char>, k: u32, n: int) -> bool {
    exists|i: int| 0 <= i < n && letter_key(cw[i]) == k
}

/// The constraints map of a clue: exactly the letters of the guess, each with
/// its green/yellow count and whether it was also marked gray.
pub open spec fn is_constraints_of(m: Map<u32, (usize, bool)>, cw: Seq<char>, hints: Seq<Hint>) -> bool {
    forall|k: u32|
        #![trigger m.contains_key(k)]
        {
            &&& m.contains_key(k) <==> key_occurs(cw, k, 5)
            &&& m.contains_key(k) ==> m[k] == (
                present_count(cw, hints, k, 5) as usize,
                gray_seen(cw, hints, k, 5),
            )
        }
}

pub proof fn lemma_present_count_bound(cw: Seq<char>, hints: Seq<Hint>, k: u32, n: int)
    requires
        0 <= n,
    ensures
        present_count(cw, hints, k, n) <= n,
    decreases n,
{
    if n > 0 {
        lemma_present_count_bound(cw, hints, k, n - 1);
    }
}

/// Build per-letter constraints from a clue.
/// - green/yellow => letter appears at least N times
/// - gray mixed with green/yellow => letter appears exactly N times
/// - all gray => letter does not appear
pub fn build_letter_constraints(clue: &Clue) -> (info: LetterConstraints)
    ensures
        is_constraints_of(info@, clue.word@, clue.hints@),
{
    broadcast use vstd::std_specs::hash::group_hash_axioms;

    let ghost cw = clue.word@;
    let ghost hs = clue.hints@;
    let mut info: LetterConstraints = HashMap::new();
    let mut i: usize = 0;
    while i < 5
        invariant
            0 <= i <= 5,
            cw == clue.word@,
            hs == clue.hints@,
            forall|k: u32|
                #![trigger info@.contains_key(k)]
                {
                    &&& info@.contains_key(k) <==> key_occurs(cw, k, i as int)
                    &&& info@.contains_key(k) ==> info@[k] == (
                        present_count(cw, hs, k, i as int) as usize,
                        gray_seen(cw, hs, k, i as int),
                    )
                },
        decreases 5 - i,
    {
        let c = clue.word[i];
        let key = c as u32;
        let (count, gray): (usize, bool) = match info.get(&key) {
            Some(entry) => *entry,
            None => (0, false),
        };
        proof {
            lemma_present_count_bound(cw, hs, key, i as int);
            if !info@.contains_key(key) {
                assert(present_count(cw, hs, key, i as int) == 0) by {
                    lemma_present_count_absent(cw, hs, key, i as int);
                }
                assert(!gray_seen(cw, hs, key, i as int));
            }
        }
        let entry: (usize, bool) = match clue.hints[i] {
            Hint::Green | Hint::Yellow => (count + 1, gray),
            Hint::Gray => (count, true),
        };
        info.insert(key, entry);
        proof {
            assert forall|k: u32|
                #![trigger info@.contains_key(k)]
                {
                    &&& info@.contains_key(k) <==> key_occurs(cw, k, i + 1)
                    &&& info@.contains_key(k) ==> info@[k] == (
                        present_count(cw, hs, k, i + 1) as usize,
                        gray_seen(cw, hs, k, i + 1),
                    )
                } by {
                if k == key {
                    assert(key_occurs(cw, k, i + 1)) by {
                        assert(letter_key(cw[i as int]) == k);
                    }
                    if hs[i as int] == Hint::Gray {
                        assert(gray_seen(cw, hs, k, i + 1)) by {
                            assert(letter_key(cw[i as int]) == k && hs[i as int] == Hint::Gray);
                        }
                    } else {
                        if gray_seen(cw, hs, k, i + 1) {
                            let j = choose|j: int|
                                0 <= j < i + 1 && letter_key(cw[j]) == k && hs[j] == Hint::Gray;
                            assert(j < i);
                        }
                    }
                } else {
                    if key_occurs(cw, k, i + 1) {
                        let j = choose|j: int| 0 <= j < i + 1 && letter_key(cw[j]) == k;
                        assert(j < i);
                    }
                    if gray_seen(cw, hs, k, i + 1) {
                        let j = choose|j: int|
                            0 <= j < i + 1 && letter_key(cw[j]) == k && hs[j] == Hint::Gray;
                        assert(j < i);
                    }
                }
            }
        }
        i += 1;
    }
    info
}

proof fn lemma_present_count_absent(cw: Seq<char>, hints: Seq<Hint>, k: u32, n: int)
    requires
        0 <= n,
        !key_occurs(cw, k, n),
    ensures
        present_count(cw, hints, k, n) == 0,
    decreases n,
{
    if n > 0 {
        assert(!key_occurs(cw, k, n - 1)) by {
            if key_occurs(cw, k, n - 1) {
                let j = choose|j: int| 0 <= j < n - 1 && letter_key(cw[j]) == k;
                assert(0 <= j < n && letter_key(cw[j]) == k);
            }
        }
        lemma_present_count_absent(cw, hints, k, n - 1);
        assert(letter_key(cw[n - 1]) != k) by {
            if letter_key(cw[n - 1]) == k {
                assert(0 <= n - 1 < n && letter_key(cw[n - 1]) == k);
            }
        }
    }
}


/// How many positions below `n` of `s` hold letter key `k`.
pub open spec fn count_key(s: Seq<char>, k: u32, n: int) -> nat
    decreases n,
{
    if n <= 0 {
        0
    } else {
        count_key(s, k, n - 1) + if letter_key(s[n - 1]) == k {
            1nat
        } else {
            0nat
        }
    }
}

/// The count a map records for key `k`, zero where it records none.
pub open spec fn lookup_count(m: Map<u32, usize>, k: u32) -> nat {
    if m.contains_key(k) {
        m[k] as nat
    } else {
        0
    }
}

/// Whether an actual letter count satisfies a (min, has_gray) constraint:
/// all gray means absent, gray mixed with green/yellow means exactly `min`,
/// no gray means at least `min`.
pub open spec fn count_ok(actual: nat, min: usize, has_gray: bool) -> bool {
    if has_gray && min == 0 {
        actual == 0
    } else if has_gray {
        actual == min
    } else {
        actual >= min
    }
}

/// Count rule: every constrained letter occurs as often as its constraint asks.
pub open spec fn spec_matches_counts(counts: Map<u32, usize>, constraints: Map<u32, (usize, bool)>) -> bool {
    forall|k: u32|
        #![trigger constraints.contains_key(k)]
        constraints.contains_key(k) ==> count_ok(
            lookup_count(counts, k),
            constraints[k].0,
            constraints[k].1,
        )
}

/// Check that letter counts in the word satisfy the constraints.
pub fn matches_counts(letter_counts: &HashMap<u32, usize>, constraints: &LetterConstraints) -> (r:
    bool)
    ensures
        r == spec_matches_counts(letter_counts@, constraints@),
{
    broadcast use vstd::std_specs::hash::group_hash_axioms;

    for entry in it: constraints.iter()
        invariant
            forall|j: int|
                #![trigger it.seq()[j]]
                0 <= j < it.index() ==> count_ok(
                    lookup_count(letter_counts@, *it.seq()[j].0),
                    it.seq()[j].1.0,
                    it.seq()[j].1.1,
                ),
    {
        let (c, (min, has_gray)) = entry;
        proof {
            let v = vstd::std_specs::hash::spec_hash_map_iter(constraints).remaining();
            assert(it.seq() == v);
            assert(entry == it.seq()[it.index()]);
            assert(constraints@.contains_key(*c) && constraints@[*c] == (*min, *has_gray));
        }
        let actual: usize = match letter_counts.get(c) {
            Some(n) => *n,
            None => 0,
        };
        if *has_gray && *min == 0 {
            if actual > 0 {
                return false;
            }
        } else if *has_gray {
            if actual != *min {
                return false;
            }
        } else {
            if actual < *min {
                return false;
            }
        }
    }
    true
}


/// Count rule stated over the word itself: every constrained letter occurs in
/// `word` as often as its constraint asks.
pub open spec fn spec_word_counts_ok(word: Seq<char>, constraints: Map<u32, (usize, bool)>) -> bool {
    forall|k: u32|
        #![trigger constraints.contains_key(k)]
        constraints.contains_key(k) ==> count_ok(
            count_key(word, k, word.len() as int),
            constraints[k].0,
            constraints[k].1,
        )
}

/// Whether `word` satisfies a clue, given the clue's constraints map.
pub open spec fn spec_matches_clue(
    word: Seq<char>,
    cw: Seq<char>,
    hints: Seq<Hint>,
    constraints: Map<u32, (usize, bool)>,
) -> bool {
    spec_matches_positions(word, cw, hints) && spec_word_counts_ok(word, constraints)
}

/// Whether `word` is consistent with the guess `cw` and its feedback `hints`:
/// the position rule holds, and each letter of the guess occurs in `word`
/// as often as its green/yellow/gray marks demand.
pub open spec fn word_fits_clue(word: Seq<char>, cw: Seq<char>, hints: Seq<Hint>) -> bool {
    &&& spec_matches_positions(word, cw, hints)
    &&& forall|k: u32|
        #![trigger key_occurs(cw, k, 5)]
        key_occurs(cw, k, 5) ==> count_ok(
            count_key(word, k, word.len() as int),
            present_count(cw, hints, k, 5) as usize,
            gray_seen(cw, hints, k, 5),
        )
}

pub proof fn lemma_count_key_bound(s: Seq<char>, k: u32, n: int)
    requires
        0 <= n,
    ensures
        count_key(s, k, n) <= n,
    decreases n,
{
    if n > 0 {
        lemma_count_key_bound(s, k, n - 1);
    }
}

/// With the constraints map that `build_letter_constraints` produces,
/// `spec_matches_clue` is exactly consistency with the clue.
pub proof fn lemma_matches_clue_iff_fits(
    word: Seq<char>,
    cw: Seq<char>,
    hints: Seq<Hint>,
    constraints: Map<u32, (usize, bool)>,
)
    requires
        is_constraints_of(constraints, cw, hints),
    ensures
        spec_matches_clue(word, cw, hints, constraints) == word_fits_clue(word, cw, hints),
{
    if spec_matches_clue(word, cw, hints, constraints) {
        assert forall|k: u32| #![trigger key_occurs(cw, k, 5)] key_occurs(cw, k, 5) implies count_ok(
            count_key(word, k, word.len() as int),
            present_count(cw, hints, k, 5) as usize,
            gray_seen(cw, hints, k, 5),
        ) by {
            assert(constraints.contains_key(k));
        }
    }
    if word_fits_clue(word, cw, hints) {
        assert forall|k: u32| #![trigger constraints.contains_key(k)] constraints.contains_key(k) implies count_ok(
            count_key(word, k, word.len() as int),
            constraints[k].0,
            constraints[k].1,
        ) by {
            assert(key_occurs(cw, k, 5));
        }
    }
}

proof fn lemma_count_covers_marks(cw: Seq<char>, hints: Seq<Hint>, k: u32, n: int)
    requires
        0 <= n,
    ensures
        count_key(cw, k, n) >= present_count(cw, hints, k, n) + if gray_seen(cw, hints, k, n) {
            1nat
        } else {
            0nat
        },
    decreases n,
{
    if n > 0 {
        lemma_count_covers_marks(cw, hints, k, n - 1);
        if gray_seen(cw, hints, k, n) && !gray_seen(cw, hints, k, n - 1) {
            let j = choose|j: int| 0 <= j < n && letter_key(cw[j]) == k && hints[j] == Hint::Gray;
            if j < n - 1 {
                assert(gray_seen(cw, hints, k, n - 1));
            }
        }
        if gray_seen(cw, hints, k, n - 1) {
            let j = choose|j: int| 0 <= j < n - 1 && letter_key(cw[j]) == k && hints[j] == Hint::Gray;
            assert(0 <= j < n && letter_key(cw[j]) == k && hints[j] == Hint::Gray);
        }
    }
}

/// A guess fits its own clue exactly when the clue is all green: a yellow
/// fails the position rule and a gray fails the count rule.
pub proof fn lemma_guess_fits_own_clue_iff_all_green(cw: Seq<char>, hints: Seq<Hint>)
    requires
        cw.len() == 5,
        hints.len() == 5,
    ensures
        word_fits_clue(cw, cw, hints) <==> forall|i: int| 0 <= i < 5 ==> hints[i] == Hint::Green,
{
    if forall|i: int| 0 <= i < 5 ==> hints[i] == Hint::Green {
        assert forall|k: u32| #![trigger key_occurs(cw, k, 5)] key_occurs(cw, k, 5) implies count_ok(
            count_key(cw, k, cw.len() as int),
            present_count(cw, hints, k, 5) as usize,
            gray_seen(cw, hints, k, 5),
        ) by {
            lemma_count_covers_marks(cw, hints, k, 5);
            lemma_present_count_bound(cw, hints, k, 5);
            if gray_seen(cw, hints, k, 5) {
                let j = choose|j: int| 0 <= j < 5 && letter_key(cw[j]) == k && hints[j] == Hint::Gray;
                assert(hints[j] == Hint::Green);
            }
        }
    } else {
        let i = choose|i: int| 0 <= i < 5 && hints[i] != Hint::Green;
        if hints[i] == Hint::Yellow {
            assert(!rule_at(cw, cw, hints, i));
        } else {
            let k = letter_key(cw[i]);
            assert(gray_seen(cw, hints, k, 5));
            assert(key_occurs(cw, k, 5));
            lemma_count_covers_marks(cw, hints, k, 5);
            lemma_present_count_bound(cw, hints, k, 5);
        }
    }
}

/// Whether `word` (its letters) satisfies the clue: the position rule and,
/// counting every letter of `word`, the count rule of `constraints`.
pub fn matches_clue(word: &[char], clue: &Clue, constraints: &LetterConstraints) -> (r: bool)
    requires
        positions_readable(word@, clue.word@, clue.hints@),
    ensures
        r == spec_matches_clue(word@, clue.word@, clue.hints@, constraints@),
{
    broadcast use vstd::std_specs::hash::group_hash_axioms;

    let mut letter_counts: HashMap<u32, usize> = HashMap::new();
    let n = word.len();
    let mut i: usize = 0;
    while i < n
        invariant
            0 <= i <= n,
            n == word@.len(),
            forall|k: u32| #[trigger]
                lookup_count(letter_counts@, k) == count_key(word@, k, i as int),
        decreases n - i,
    {
        let key = word[i] as u32;
        let current: usize = match letter_counts.get(&key) {
            Some(v) => *v,
            None => 0,
        };
        proof {
            lemma_count_key_bound(word@, key, i as int);
            assert(lookup_count(letter_counts@, key) == count_key(word@, key, i as int));
        }
        let ghost old_counts = letter_counts@;
        letter_counts.insert(key, current + 1);
        proof {
            assert forall|k: u32| #[trigger]
                lookup_count(letter_counts@, k) == count_key(word@, k, i + 1) by {
                if k != key {
                    assert(lookup_count(letter_counts@, k) == lookup_count(
                        old_counts,
                        k,
                    ));
                }
            }
        }
        i += 1;
    }
    let positions = matches_positions(word, clue);
    let counts = matches_counts(&letter_counts, constraints);
    proof {
        assert(spec_matches_counts(letter_counts@, constraints@) == spec_word_counts_ok(
            word@,
            constraints@,
        )) by {
            assert forall|k: u32| #![trigger constraints@.contains_key(k)]
                constraints@.contains_key(k) implies lookup_count(letter_counts@, k) == count_key(word@, k, word@.len() as int) by {
            }
        }
    }
    positions && counts
}


/// ASCII letter test, as `char::is_ascii_alphabetic`.
pub open spec fn spec_is_ascii_alphabetic(c: char) -> bool {
    ('a' <= c && c <= 'z') || ('A' <= c && c <= 'Z')
}

/// Whether `c` is an ASCII letter.
pub(crate) fn is_ascii_alphabetic(c: char) -> (r: bool)
    ensures
        r == spec_is_ascii_alphabetic(c),
{
    ('a' <= c && c <= 'z') || ('A' <= c && c <= 'Z')
}

/// The hint a feedback character stands for: `G` green, `Y` yellow, `_` gray.
pub open spec fn feedback_hint(c: char) -> Option<Hint> {
    if c == 'G' {
        Some(Hint::Green)
    } else if c == 'Y' {
        Some(Hint::Yellow)
    } else if c == '_' {
        Some(Hint::Gray)
    } else {
        None
    }
}

/// Index of the first character at or after `i` that is not an ASCII
/// letter, or the length of `s` if there is none.
pub open spec fn first_non_alpha(s: Seq<char>, i: int) -> int
    decreases s.len() - i,
{
    if i >= s.len() {
        s.len() as int
    } else if !spec_is_ascii_alphabetic(s[i]) {
        i
    } else {
        first_non_alpha(s, i + 1)
    }
}

/// Index of the first character at or after `i` that is not a feedback
/// character, or the length of `s` if there is none.
pub open spec fn first_non_feedback(s: Seq<char>, i: int) -> int
    decreases s.len() - i,
{
    if i >= s.len() {
        s.len() as int
    } else if feedback_hint(s[i]) is None {
        i
    } else {
        first_non_feedback(s, i + 1)
    }
}

/// The five letters of a clue read from lowercased text: the text's
/// characters, then `a` where the text is shorter.
pub open spec fn padded_word(lower: Seq<char>) -> Seq<char> {
    Seq::new(5, |i: int| if i < lower.len() { lower[i] } else { 'a' })
}

/// The five hints of a clue read from uppercased feedback: one per
/// character, then gray where the text is shorter.
pub open spec fn padded_hints(upper: Seq<char>) -> Seq<Hint> {
    Seq::new(
        5,
        |i: int|
            if i < upper.len() {
                feedback_hint(upper[i])->0
            } else {
                Hint::Gray
            },
    )
}

/// Reading stays within five positions: the letters hold a non-letter
/// among their first six, or end by then; and, if they are all letters,
/// the same holds of the feedback characters.
pub open spec fn folded_fits(lower: Seq<char>, upper: Seq<char>) -> bool {
    &&& first_non_alpha(lower, 0) <= 5
    &&& first_non_alpha(lower, 0) == lower.len() ==> first_non_feedback(upper, 0) <= 5
}

pub open spec fn word_length_message(word: Seq<char>) -> Seq<char> {
    "Word must be 5 letters, got '"@ + word + "'"@
}

pub open spec fn feedback_length_message(feedback: Seq<char>) -> Seq<char> {
    "Feedback must be 5 chars (G/Y/_), got '"@ + feedback + "'"@
}

pub open spec fn word_char_message(c: char) -> Seq<char> {
    "Word contains non-alphabetic character '"@ + seq![c] + "'"@
}

pub open spec fn feedback_char_message(c: char) -> Seq<char> {
    "Invalid feedback char '"@ + seq![c] + "', use G/Y/_"@
}

/// What reading a clue from lowercased letters and uppercased feedback
/// gives: the first non-letter is reported, else the first character other
/// than G, Y, _; otherwise the padded letters and hints.
pub open spec fn folded_outcome(lower: Seq<char>, upper: Seq<char>) -> Result<
    (Seq<char>, Seq<Hint>),
    Seq<char>,
> {
    let i = first_non_alpha(lower, 0);
    let j = first_non_feedback(upper, 0);
    if i < lower.len() {
        Err(word_char_message(lower[i]))
    } else if j < upper.len() {
        Err(feedback_char_message(upper[j]))
    } else {
        Ok((padded_word(lower), padded_hints(upper)))
    }
}

/// Whether a parse result is the given outcome.
pub open spec fn result_is(r: Result<Clue, String>, o: Result<(Seq<char>, Seq<Hint>), Seq<char>>) -> bool {
    match r {
        Ok(clue) => o matches Ok(p) && clue.word@ == p.0 && clue.hints@ == p.1,
        Err(e) => o matches Err(m) && e@ == m,
    }
}

/// Length of a text in UTF-8 bytes, as `str::len` reports it.
pub open spec fn utf8_len(s: Seq<char>) -> usize {
    vstd::utf8::encode_utf8(s).len() as usize
}

/// What `Clue::parse` gives for a word and a feedback string.
pub open spec fn parse_outcome(word: Seq<char>, feedback: Seq<char>) -> Result<(Seq<char>, Seq<Hint>), Seq<char>> {
    if utf8_len(word) != 5 {
        Err(word_length_message(word))
    } else if utf8_len(feedback) != 5 {
        Err(feedback_length_message(feedback))
    } else {
        let lower = lowercased(word);
        let upper = uppercased(feedback);
        if !folded_fits(lower, upper) {
            if first_non_alpha(lower, 0) > 5 {
                Err(word_length_message(word))
            } else {
                Err(feedback_length_message(feedback))
            }
        } else {
            folded_outcome(lower, upper)
        }
    }
}

proof fn lemma_first_non_alpha(s: Seq<char>, i: int)
    requires
        0 <= i <= s.len(),
    ensures
        i <= first_non_alpha(s, i) <= s.len(),
        forall|j: int| i <= j < first_non_alpha(s, i) ==> spec_is_ascii_alphabetic(#[trigger] s[j]),
        first_non_alpha(s, i) < s.len() ==> !spec_is_ascii_alphabetic(s[first_non_alpha(s, i)]),
    decreases s.len() - i,
{
    if i < s.len() && spec_is_ascii_alphabetic(s[i]) {
        lemma_first_non_alpha(s, i + 1);
    }
}

proof fn lemma_first_non_feedback(s: Seq<char>, i: int)
    requires
        0 <= i <= s.len(),
    ensures
        i <= first_non_feedback(s, i) <= s.len(),
        forall|j: int| i <= j < first_non_feedback(s, i) ==> #[trigger] feedback_hint(s[j]) is Some,
        first_non_feedback(s, i) < s.len() ==> feedback_hint(s[first_non_feedback(s, i)]) is None,
    decreases s.len() - i,
{
    if i < s.len() && feedback_hint(s[i]) is Some {
        lemma_first_non_feedback(s, i + 1);
    }
}

/// ASCII text whose length fits a `usize`.
pub open spec fn plain_ascii(s: Seq<char>) -> bool {
    is_ascii_chars(s) && s.len() <= usize::MAX
}

/// Five ASCII letters and five feedback characters (`G`, `Y`, `_` in either case).
pub open spec fn ascii_clue_text(word: Seq<char>, feedback: Seq<char>) -> bool {
    &&& word.len() == 5
    &&& feedback.len() == 5
    &&& forall|i: int| 0 <= i < 5 ==> spec_is_ascii_alphabetic(#[trigger] word[i])
    &&& forall|i: int| 0 <= i < 5 ==> #[trigger] feedback_hint(ascii_upper(feedback[i])) is Some
}

/// The hints that five feedback characters stand for, in either case.
pub open spec fn ascii_hints(feedback: Seq<char>) -> Seq<Hint> {
    Seq::new(5, |i: int| feedback_hint(ascii_upper(feedback[i]))->0)
}

proof fn lemma_ascii_texts(word: Seq<char>, feedback: Seq<char>)
    requires
        is_ascii_chars(word),
        is_ascii_chars(feedback),
        word.len() == 5,
        feedback.len() == 5,
    ensures
        ({
            let lower = ascii_lower_all(word);
            let upper = ascii_upper_all(feedback);
            &&& folded_fits(lower, upper)
            &&& (folded_outcome(lower, upper) is Ok <==> ascii_clue_text(word, feedback))
            &&& folded_outcome(lower, upper) is Ok ==> folded_outcome(lower, upper)->Ok_0 == (
                ascii_lower_all(word),
                ascii_hints(feedback),
            )
        }),
{
    let lower = ascii_lower_all(word);
    let upper = ascii_upper_all(feedback);
    lemma_first_non_alpha(lower, 0);
    lemma_first_non_feedback(upper, 0);
    assert forall|i: int| 0 <= i < 5 implies spec_is_ascii_alphabetic(#[trigger] lower[i])
        == spec_is_ascii_alphabetic(word[i]) by {
        let c = word[i];
        assert('\0' <= c <= '\u{7f}');
    }
    if ascii_clue_text(word, feedback) {
        assert(first_non_alpha(lower, 0) == 5) by {
            if first_non_alpha(lower, 0) < 5 {
                let f = first_non_alpha(lower, 0);
                assert(spec_is_ascii_alphabetic(word[f]));
            }
        }
        assert(first_non_feedback(upper, 0) == 5) by {
            if first_non_feedback(upper, 0) < 5 {
                let f = first_non_feedback(upper, 0);
                assert(feedback_hint(ascii_upper(feedback[f])) is Some);
            }
        }
        assert(padded_word(lower) =~= lower);
        assert(padded_hints(upper) =~= ascii_hints(feedback));
    } else {
        if folded_outcome(lower, upper) is Ok {
            assert(first_non_alpha(lower, 0) == 5);
            assert(first_non_feedback(upper, 0) == 5);
            assert forall|i: int| 0 <= i < 5 implies spec_is_ascii_alphabetic(#[trigger] word[i]) by {
                assert(spec_is_ascii_alphabetic(lower[i]));
            }
            assert forall|i: int| 0 <= i < 5 implies #[trigger] feedback_hint(ascii_upper(feedback[i])) is Some by {
                assert(feedback_hint(upper[i]) is Some);
            }
        }
    }
}

impl Clue {
    /// Reads a clue from the already lowercased letters of a guess and the
    /// already uppercased feedback characters.
    pub fn from_case_folded(lower: &[char], upper: &[char]) -> (r: Result<Clue, String>)
        requires
            folded_fits(lower@, upper@),
        ensures
            result_is(r, folded_outcome(lower@, upper@)),
    {
        proof {
            lemma_first_non_alpha(lower@, 0);
            lemma_first_non_feedback(upper@, 0);
        }
        let mut w: Vec<char> = Vec::new();
        let mut i: usize = 0;
        while i < lower.len()
            invariant
                0 <= i <= lower@.len(),
                i <= first_non_alpha(lower@, 0) <= 5,
                w@ == lower@.take(i as int),
                forall|j: int| 0 <= j < i ==> spec_is_ascii_alphabetic(#[trigger] lower@[j]),
                folded_fits(lower@, upper@),
                first_non_alpha(lower@, 0) <= lower@.len(),
                forall|j: int| 0 <= j < first_non_alpha(lower@, 0) ==> spec_is_ascii_alphabetic(#[trigger] lower@[j]),
                first_non_alpha(lower@, 0) < lower@.len() ==> !spec_is_ascii_alphabetic(lower@[first_non_alpha(lower@, 0)]),
            decreases lower@.len() - i,
        {
            let c = lower[i];
            if !is_ascii_alphabetic(c) {
                let mut msg = String::from_str("Word contains non-alphabetic character '");
                push_char(&mut msg, c);
                msg.append("'");
                proof {
                    assert(first_non_alpha(lower@, 0) == i);
                    assert(msg@ == word_char_message(c));
                }
                return Err(msg);
            }
            w.push(c);
            i += 1;
        }
        proof {
            assert(first_non_alpha(lower@, 0) == lower@.len());
        }
        while w.len() < 5
            invariant
                lower@.len() <= w@.len() <= 5,
                forall|j: int| 0 <= j < w@.len() ==> #[trigger] w@[j] == (if j < lower@.len() { lower@[j] } else { 'a' }),
            decreases 5 - w@.len(),
        {
            w.push('a');
        }
        let mut h: Vec<Hint> = Vec::new();
        let mut i: usize = 0;
        while i < upper.len()
            invariant
                0 <= i <= upper@.len(),
                i <= first_non_feedback(upper@, 0),
                h@.len() == i,
                forall|j: int| 0 <= j < i ==> Some(#[trigger] h@[j]) == feedback_hint(upper@[j]),
                first_non_feedback(upper@, 0) <= 5,
                first_non_feedback(upper@, 0) <= upper@.len(),
                forall|j: int| 0 <= j < first_non_feedback(upper@, 0) ==> #[trigger] feedback_hint(upper@[j]) is Some,
                first_non_feedback(upper@, 0) < upper@.len() ==> feedback_hint(upper@[first_non_feedback(upper@, 0)]) is None,
                first_non_alpha(lower@, 0) == lower@.len(),
            decreases upper@.len() - i,
        {
            let c = upper[i];
            let hint = if c == 'G' {
                Hint::Green
            } else if c == 'Y' {
                Hint::Yellow
            } else if c == '_' {
                Hint::Gray
            } else {
                let mut msg = String::from_str("Invalid feedback char '");
                push_char(&mut msg, c);
                msg.append("', use G/Y/_");
                proof {
                    assert(feedback_hint(upper@[i as int]) is None);
                    assert(first_non_feedback(upper@, 0) == i);
                    assert(msg@ == feedback_char_message(c));
                }
                return Err(msg);
            };
            h.push(hint);
            i += 1;
        }
        proof {
            assert(first_non_feedback(upper@, 0) == upper@.len());
        }
        while h.len() < 5
            invariant
                upper@.len() <= h@.len() <= 5,
                forall|j: int| 0 <= j < upper@.len() ==> Some(#[trigger] h@[j]) == feedback_hint(upper@[j]),
                forall|j: int| upper@.len() <= j < h@.len() ==> #[trigger] h@[j] == Hint::Gray,
            decreases 5 - h@.len(),
        {
            h.push(Hint::Gray);
        }
        let clue = Clue { word: [w[0], w[1], w[2], w[3], w[4]], hints: [h[0], h[1], h[2], h[3], h[4]] };
        proof {
            assert(clue.word@ =~= padded_word(lower@));
            assert(clue.hints@ =~= padded_hints(upper@));
        }
        Ok(clue)
    }

    /// Parses a guess and its feedback (`G`, `Y` or `_` per letter, in either
    /// case). The guess is lowercased and must be five ASCII letters.
    pub fn parse(word: &str, feedback: &str) -> (r: Result<Clue, String>)
        ensures
            result_is(r, parse_outcome(word@, feedback@)),
            plain_ascii(word@) && plain_ascii(feedback@) ==> (r is Ok <==> ascii_clue_text(
                word@,
                feedback@,
            )),
            plain_ascii(word@) && plain_ascii(feedback@) && r is Ok ==> {
                &&& r->Ok_0.word@ == ascii_lower_all(word@)
                &&& r->Ok_0.hints@ == ascii_hints(feedback@)
            },
    {
        broadcast use vstd::string::is_ascii_spec_bytes;

        proof {
            if plain_ascii(word@) {
                assert(vstd::string::is_ascii(word));
                assert(word.spec_bytes().len() == word@.len());
            }
            if plain_ascii(feedback@) {
                assert(vstd::string::is_ascii(feedback));
                assert(feedback.spec_bytes().len() == feedback@.len());
            }
        }
        if word.len() != 5 {
            return Err(concat3("Word must be 5 letters, got '", word, "'"));
        }
        if feedback.len() != 5 {
            return Err(concat3("Feedback must be 5 chars (G/Y/_), got '", feedback, "'"));
        }
        let lower_text = to_lowercase(word);
        let upper_text = to_uppercase(feedback);
        let lower = chars_of(lower_text.as_str());
        let upper = chars_of(upper_text.as_str());
        proof {
            if plain_ascii(word@) && plain_ascii(feedback@) {
                lemma_ascii_texts(word@, feedback@);
            }
        }
        if !Self::fits_five(&lower, &upper) {
            if Self::letters_run_past_five(&lower) {
                return Err(concat3("Word must be 5 letters, got '", word, "'"));
            }
            return Err(concat3("Feedback must be 5 chars (G/Y/_), got '", feedback, "'"));
        }
        Self::from_case_folded(&lower, &upper)
    }

    /// Whether the first six characters are all ASCII letters.
    fn letters_run_past_five(lower: &Vec<char>) -> (r: bool)
        ensures
            r == (first_non_alpha(lower@, 0) > 5),
    {
        proof {
            lemma_first_non_alpha(lower@, 0);
        }
        if lower.len() < 6 {
            return false;
        }
        let mut i: usize = 0;
        while i < 6
            invariant
                i <= 6,
                lower@.len() >= 6,
                forall|j: int| 0 <= j < i ==> spec_is_ascii_alphabetic(#[trigger] lower@[j]),
                0 <= first_non_alpha(lower@, 0) <= lower@.len(),
                forall|j: int| 0 <= j < first_non_alpha(lower@, 0) ==> spec_is_ascii_alphabetic(#[trigger] lower@[j]),
                first_non_alpha(lower@, 0) < lower@.len() ==> !spec_is_ascii_alphabetic(lower@[first_non_alpha(lower@, 0)]),
            decreases 6 - i,
        {
            if !is_ascii_alphabetic(lower[i]) {
                proof {
                    assert(first_non_alpha(lower@, 0) <= i) by {
                        if first_non_alpha(lower@, 0) > i {
                            assert(spec_is_ascii_alphabetic(lower@[i as int]));
                        }
                    }
                }
                return false;
            }
            i += 1;
        }
        proof {
            if first_non_alpha(lower@, 0) <= 5 {
                let f = first_non_alpha(lower@, 0);
                assert(spec_is_ascii_alphabetic(lower@[f]));
            }
        }
        true
    }

    /// Whether the first six characters are all feedback characters.
    fn feedback_runs_past_five(upper: &Vec<char>) -> (r: bool)
        ensures
            r == (first_non_feedback(upper@, 0) > 5),
    {
        proof {
            lemma_first_non_feedback(upper@, 0);
        }
        if upper.len() < 6 {
            return false;
        }
        let mut i: usize = 0;
        while i < 6
            invariant
                i <= 6,
                upper@.len() >= 6,
                forall|j: int| 0 <= j < i ==> #[trigger] feedback_hint(upper@[j]) is Some,
                0 <= first_non_feedback(upper@, 0) <= upper@.len(),
                forall|j: int| 0 <= j < first_non_feedback(upper@, 0) ==> #[trigger] feedback_hint(upper@[j]) is Some,
                first_non_feedback(upper@, 0) < upper@.len() ==> feedback_hint(upper@[first_non_feedback(upper@, 0)]) is None,
            decreases 6 - i,
        {
            let c = upper[i];
            if !(c == 'G' || c == 'Y' || c == '_') {
                proof {
                    assert(feedback_hint(upper@[i as int]) is None);
                    assert(first_non_feedback(upper@, 0) <= i);
                }
                return false;
            }
            i += 1;
        }
        proof {
            if first_non_feedback(upper@, 0) <= 5 {
                let f = first_non_feedback(upper@, 0);
                assert(feedback_hint(upper@[f]) is Some);
            }
        }
        true
    }

    /// Whether reading the folded texts stays within five positions.
    fn fits_five(lower: &Vec<char>, upper: &Vec<char>) -> (r: bool)
        ensures
            r == folded_fits(lower@, upper@),
    {
        proof {
            lemma_first_non_alpha(lower@, 0);
        }
        if Self::letters_run_past_five(lower) {
            return false;
        }
        if Self::all_letters(lower) {
            !Self::feedback_runs_past_five(upper)
        } else {
            true
        }
    }

    /// Whether every character is an ASCII letter.
    fn all_letters(lower: &Vec<char>) -> (r: bool)
        ensures
            r == (first_non_alpha(lower@, 0) == lower@.len()),
    {
        proof {
            lemma_first_non_alpha(lower@, 0);
        }
        let mut i: usize = 0;
        while i < lower.len()
            invariant
                i <= lower@.len(),
                forall|j: int| 0 <= j < i ==> spec_is_ascii_alphabetic(#[trigger] lower@[j]),
                0 <= first_non_alpha(lower@, 0) <= lower@.len(),
                forall|j: int| 0 <= j < first_non_alpha(lower@, 0) ==> spec_is_ascii_alphabetic(#[trigger] lower@[j]),
                first_non_alpha(lower@, 0) < lower@.len() ==> !spec_is_ascii_alphabetic(lower@[first_non_alpha(lower@, 0)]),
            decreases lower@.len() - i,
        {
            if !is_ascii_alphabetic(lower[i]) {
                proof {
                    assert(first_non_alpha(lower@, 0) <= i) by {
                        if first_non_alpha(lower@, 0) > i {
                            assert(spec_is_ascii_alphabetic(lower@[i as int]));
                        }
                    }
                }
                return false;
            }
            i += 1;
        }
        proof {
            if first_non_alpha(lower@, 0) < lower@.len() {
                let f = first_non_alpha(lower@, 0);
                assert(spec_is_ascii_alphabetic(lower@[f]));
            }
        }
        true
    }
}

} // verus!
