use vstd::prelude::*;
use std::collections::HashMap;
use std::collections::HashSet;
use crate::clue::{
    Clue,
    letter_key,
    count_key,
    key_occurs,
    lookup_count,
    lemma_count_key_bound,
    build_letter_constraints,
    matches_clue,
    word_fits_clue,
    positions_readable,
    lemma_long_word_readable,
    lemma_matches_clue_iff_fits,
};
use vstd::string::StringExecFns;
use crate::text::{
    chars_of,
    ascii_lower,
    ascii_lower_all,
    uppercased,
    to_uppercase,
    decimal,
    usize_to_decimal,
    lowercased,
    trimmed,
    to_lowercase,
    trim,
    push_char,
};
use crate::words::WORDS;
use crate::feedback::{wordle_feedback, lemma_answer_fits_its_feedback};

verus! {

/// Whether `word` is consistent with every clue of `clues`.
pub open spec fn fits_all_clues(word: Seq<char>, clues: Seq<Clue>) -> bool {
    forall|i: int|
        0 <= i < clues.len() ==> #[trigger] word_fits_clue(word, clues[i].word@, clues[i].hints@)
}

/// The filter's predicate on a candidate word.
pub open spec fn survives(clues: Seq<Clue>) -> spec_fn(String) -> bool {
    |w: String| fits_all_clues(w@, clues)
}

/// Every word has at least five letters.
pub open spec fn min_five_letters(words: Seq<String>) -> bool {
    forall|i: int| 0 <= i < words.len() ==> (#[trigger] words[i])@.len() >= 5
}

/// Checking `word` against `clues` in order, stopping at the first clue it
/// fails, never reads past the end of the word.
pub open spec fn clues_readable(word: Seq<char>, clues: Seq<Clue>) -> bool {
    forall|i: int|
        0 <= i < clues.len() && (forall|j: int|
            0 <= j < i ==> #[trigger] word_fits_clue(word, clues[j].word@, clues[j].hints@))
            ==> positions_readable(word, (#[trigger] clues[i]).word@, clues[i].hints@)
}

/// Every candidate can be checked against `clues`.
pub open spec fn checkable(words: Seq<String>, clues: Seq<Clue>) -> bool {
    forall|i: int| 0 <= i < words.len() ==> clues_readable((#[trigger] words[i])@, clues)
}

/// Words of five letters or more can be checked against any clues.
pub proof fn lemma_min_five_checkable(words: Seq<String>, clues: Seq<Clue>)
    requires
        min_five_letters(words),
    ensures
        checkable(words, clues),
{
    assert forall|i: int| 0 <= i < words.len() implies clues_readable((#[trigger] words[i])@, clues) by {
        assert(words[i]@.len() >= 5);
        assert forall|c: int| 0 <= c < clues.len() implies positions_readable(words[i]@, (#[trigger] clues[c]).word@, clues[c].hints@) by {
            lemma_long_word_readable(words[i]@, clues[c].word@, clues[c].hints@);
        }
    }
}

/// Whether `word` passes every clue, checked in order.
pub fn matches_all_clues(word: &str, clues: &[Clue]) -> (r: bool)
    requires
        clues_readable(word@, clues@),
    ensures
        r == fits_all_clues(word@, clues@),
{
    let chars = chars_of(word);
    let n = clues.len();
    let mut i: usize = 0;
    while i < n
        invariant
            0 <= i <= n,
            n == clues@.len(),
            chars@ == word@,
            clues_readable(word@, clues@),
            forall|j: int|
                0 <= j < i ==> #[trigger] word_fits_clue(word@, clues@[j].word@, clues@[j].hints@),
        decreases n - i,
    {
        let clue = &clues[i];
        let constraints = build_letter_constraints(clue);
        let ok = matches_clue(&chars, clue, &constraints);
        proof {
            lemma_matches_clue_iff_fits(word@, clue.word@, clue.hints@, constraints@);
        }
        if !ok {
            return false;
        }
        i += 1;
    }
    true
}

/// Filter candidate words based on all accumulated clues.
pub fn filter_candidates(candidates: &[String], clues: &[Clue]) -> (r: Vec<String>)
    requires
        checkable(candidates@, clues@),
    ensures
        r@ == candidates@.filter(survives(clues@)),
{
    let mut result: Vec<String> = Vec::new();
    let n = candidates.len();
    let mut i: usize = 0;
    while i < n
        invariant
            0 <= i <= n,
            n == candidates@.len(),
            checkable(candidates@, clues@),
            result@ == candidates@.take(i as int).filter(survives(clues@)),
        decreases n - i,
    {
        let word = &candidates[i];
        let keep = matches_all_clues(word.as_str(), clues);
        proof {
            reveal_with_fuel(Seq::<_>::filter, 1);
            assert(candidates@.take(i + 1).drop_last() =~= candidates@.take(i as int));
        }
        if keep {
            result.push(word.clone());
        }
        i += 1;
    }
    proof {
        assert(candidates@.take(n as int) =~= candidates@);
    }
    result
}


pub proof fn lemma_filter_twice(s: Seq<String>, p: spec_fn(String) -> bool, q: spec_fn(String) -> bool, pq: spec_fn(String) -> bool)
    requires
        forall|w: String| #[trigger] pq(w) == (p(w) && q(w)),
    ensures
        s.filter(p).filter(q) == s.filter(pq),
    decreases s.len(),
{
    reveal_with_fuel(Seq::<_>::filter, 1);
    if s.len() > 0 {
        lemma_filter_twice(s.drop_last(), p, q, pq);
        let x = s.last();
        if p(x) {
            assert(s.filter(p).drop_last() =~= s.drop_last().filter(p));
            assert(s.filter(p).last() == x);
        } else {
            assert(s.filter(p) == s.drop_last().filter(p));
        }
    }
}

/// Filtering with one batch of clues and then another keeps exactly the
/// words that filtering once with all the clues keeps: clues accumulate.
pub proof fn lemma_filter_accumulates(candidates: Seq<String>, first: Seq<Clue>, second: Seq<Clue>)
    ensures
        candidates.filter(survives(first)).filter(survives(second)) == candidates.filter(
            survives(first + second),
        ),
{
    assert forall|w: String| #[trigger] survives(first + second)(w) == (survives(first)(w) && survives(second)(w)) by {
        let all = first + second;
        if fits_all_clues(w@, first) && fits_all_clues(w@, second) {
            assert forall|i: int| 0 <= i < all.len() implies #[trigger] word_fits_clue(
                w@,
                all[i].word@,
                all[i].hints@,
            ) by {
                if i < first.len() {
                    assert(all[i] == first[i]);
                } else {
                    assert(all[i] == second[i - first.len()]);
                }
            }
        }
        if fits_all_clues(w@, all) {
            assert forall|i: int| 0 <= i < first.len() implies #[trigger] word_fits_clue(
                w@,
                first[i].word@,
                first[i].hints@,
            ) by {
                assert(all[i] == first[i]);
            }
            assert forall|i: int| 0 <= i < second.len() implies #[trigger] word_fits_clue(
                w@,
                second[i].word@,
                second[i].hints@,
            ) by {
                assert(all[first.len() + i] == second[i]);
            }
        }
    }
    lemma_filter_twice(candidates, survives(first), survives(second), survives(first + second));
}

/// Filtering without clues keeps every candidate.
pub proof fn lemma_filter_no_clues(candidates: Seq<String>)
    ensures
        candidates.filter(survives(Seq::empty())) == candidates,
    decreases candidates.len(),
{
    reveal_with_fuel(Seq::<_>::filter, 1);
    if candidates.len() > 0 {
        lemma_filter_no_clues(candidates.drop_last());
        assert(survives(Seq::empty())(candidates.last()));
        assert(candidates.drop_last().push(candidates.last()) =~= candidates);
    }
}

/// Filtering keeps only candidates that pass: nothing is added, and each
/// kept word is one of the candidates and satisfies the predicate.
pub proof fn lemma_filter_within(words: Seq<String>, p: spec_fn(String) -> bool)
    ensures
        words.filter(p).len() <= words.len(),
        forall|i: int|
            0 <= i < words.filter(p).len() ==> words.contains(#[trigger] words.filter(p)[i]) && p(
                words.filter(p)[i],
            ),
    decreases words.len(),
{
    reveal_with_fuel(Seq::<_>::filter, 1);
    if words.len() > 0 {
        let front = words.drop_last();
        lemma_filter_within(front, p);
        assert forall|i: int| 0 <= i < words.filter(p).len() implies words.contains(
            #[trigger] words.filter(p)[i],
        ) && p(words.filter(p)[i]) by {
            if i < front.filter(p).len() {
                assert(words.filter(p)[i] == front.filter(p)[i]);
                let j = choose|j: int| 0 <= j < front.len() && front[j] == front.filter(p)[i];
                assert(words[j] == front[j]);
            } else {
                assert(words[words.len() - 1] == words.filter(p)[i]);
            }
        }
    }
}

/// The hidden word is never filtered out: when every clue is a guess
/// together with the feedback Wordle gave for it against `answer`, the
/// answer survives the filter whenever it was a candidate.
pub proof fn lemma_answer_survives(candidates: Seq<String>, clues: Seq<Clue>, answer: String)
    requires
        answer@.len() == 5,
        candidates.contains(answer),
        forall|i: int|
            0 <= i < clues.len() ==> (#[trigger] clues[i]).hints@ == wordle_feedback(
                clues[i].word@,
                answer@,
            ),
    ensures
        candidates.filter(survives(clues)).contains(answer),
{
    assert forall|i: int| 0 <= i < clues.len() implies #[trigger] word_fits_clue(
        answer@,
        clues[i].word@,
        clues[i].hints@,
    ) by {
        assert(clues[i].hints@ == wordle_feedback(clues[i].word@, answer@));
        lemma_answer_fits_its_feedback(clues[i].word@, answer@);
    }
    broadcast use Seq::lemma_filter_contains;
    let j = choose|j: int| 0 <= j < candidates.len() && candidates[j] == answer;
    assert(survives(clues)(candidates[j]));
}


/// How often letter key `k` occurs in the first `m` words, all letters counted.
pub open spec fn total_key(words: Seq<String>, k: u32, m: int) -> nat
    decreases m,
{
    if m <= 0 {
        0
    } else {
        total_key(words, k, m - 1) + count_key(words[m - 1]@, k, words[m - 1]@.len() as int)
    }
}

/// Number of letters in the first `m` words.
pub open spec fn total_chars(words: Seq<String>, m: int) -> nat
    decreases m,
{
    if m <= 0 {
        0
    } else {
        total_chars(words, m - 1) + words[m - 1]@.len()
    }
}

/// Score of the first `n` letters of `word`: the sum of `freq` over the
/// distinct letter keys among them, each counted once.
pub open spec fn score(word: Seq<char>, freq: spec_fn(u32) -> nat, n: int) -> nat
    decreases n,
{
    if n <= 0 {
        0
    } else {
        score(word, freq, n - 1) + if key_occurs(word, letter_key(word[n - 1]), n - 1) {
            0
        } else {
            freq(letter_key(word[n - 1]))
        }
    }
}

/// The letter frequencies of a candidate pool, as a function of the key.
pub open spec fn pool_frequency(words: Seq<String>) -> spec_fn(u32) -> nat {
    |k: u32| total_key(words, k, words.len() as int)
}

/// The score a suggestion ranks `word` by: its distinct letters weighted by
/// how often they occur across the candidates.
pub open spec fn word_score(word: String, candidates: Seq<String>) -> nat {
    score(word@, pool_frequency(candidates), word@.len() as int)
}

/// Positions below `n` of `s` whose letter key lies in `keys`.
pub open spec fn chars_in(s: Seq<char>, keys: Set<u32>, n: int) -> nat
    decreases n,
{
    if n <= 0 {
        0
    } else {
        chars_in(s, keys, n - 1) + if keys.contains(letter_key(s[n - 1])) {
            1nat
        } else {
            0nat
        }
    }
}

/// Letters of the first `m` words whose key lies in `keys`.
pub open spec fn words_chars_in(words: Seq<String>, keys: Set<u32>, m: int) -> nat
    decreases m,
{
    if m <= 0 {
        0
    } else {
        words_chars_in(words, keys, m - 1) + chars_in(words[m - 1]@, keys, words[m - 1]@.len() as int)
    }
}

/// The letter keys among the first `n` letters of `s`.
pub open spec fn keys_upto(s: Seq<char>, n: int) -> Set<u32> {
    Set::new(|k: u32| key_occurs(s, k, n))
}

proof fn lemma_chars_in_insert(s: Seq<char>, keys: Set<u32>, k: u32, n: int)
    requires
        !keys.contains(k),
    ensures
        chars_in(s, keys.insert(k), n) == chars_in(s, keys, n) + count_key(s, k, n),
    decreases n,
{
    if n > 0 {
        lemma_chars_in_insert(s, keys, k, n - 1);
    }
}

proof fn lemma_chars_in_bound(s: Seq<char>, keys: Set<u32>, n: int)
    requires
        0 <= n,
    ensures
        chars_in(s, keys, n) <= n,
    decreases n,
{
    if n > 0 {
        lemma_chars_in_bound(s, keys, n - 1);
    }
}

proof fn lemma_chars_in_empty(s: Seq<char>, n: int)
    ensures
        chars_in(s, Set::empty(), n) == 0,
    decreases n,
{
    if n > 0 {
        lemma_chars_in_empty(s, n - 1);
    }
}

proof fn lemma_words_chars_in_insert(words: Seq<String>, keys: Set<u32>, k: u32, m: int)
    requires
        !keys.contains(k),
    ensures
        words_chars_in(words, keys.insert(k), m) == words_chars_in(words, keys, m) + total_key(words, k, m),
    decreases m,
{
    if m > 0 {
        lemma_words_chars_in_insert(words, keys, k, m - 1);
        lemma_chars_in_insert(words[m - 1]@, keys, k, words[m - 1]@.len() as int);
    }
}

proof fn lemma_words_chars_in_bound(words: Seq<String>, keys: Set<u32>, m: int)
    requires
        0 <= m,
    ensures
        words_chars_in(words, keys, m) <= total_chars(words, m),
    decreases m,
{
    if m > 0 {
        lemma_words_chars_in_bound(words, keys, m - 1);
        lemma_chars_in_bound(words[m - 1]@, keys, words[m - 1]@.len() as int);
    }
}

proof fn lemma_words_chars_in_empty(words: Seq<String>, m: int)
    ensures
        words_chars_in(words, Set::empty(), m) == 0,
    decreases m,
{
    if m > 0 {
        lemma_words_chars_in_empty(words, m - 1);
        lemma_chars_in_empty(words[m - 1]@, words[m - 1]@.len() as int);
    }
}

proof fn lemma_score_is_chars_in(word: Seq<char>, words: Seq<String>, n: int)
    requires
        0 <= n <= word.len(),
    ensures
        score(word, pool_frequency(words), n) == words_chars_in(words, keys_upto(word, n), words.len() as int),
    decreases n,
{
    if n == 0 {
        assert(keys_upto(word, 0) =~= Set::empty());
        lemma_words_chars_in_empty(words, words.len() as int);
    } else {
        lemma_score_is_chars_in(word, words, n - 1);
        let k = letter_key(word[n - 1]);
        if key_occurs(word, k, n - 1) {
            assert(keys_upto(word, n) =~= keys_upto(word, n - 1)) by {
                assert forall|x: u32| keys_upto(word, n).contains(x) implies keys_upto(word, n - 1).contains(x) by {
                    let i = choose|i: int| 0 <= i < n && letter_key(word[i]) == x;
                    if i == n - 1 {
                        let j = choose|j: int| 0 <= j < n - 1 && letter_key(word[j]) == k;
                        assert(0 <= j < n - 1 && letter_key(word[j]) == x);
                    }
                }
                assert forall|x: u32| keys_upto(word, n - 1).contains(x) implies keys_upto(word, n).contains(x) by {
                    let i = choose|i: int| 0 <= i < n - 1 && letter_key(word[i]) == x;
                    assert(0 <= i < n && letter_key(word[i]) == x);
                }
            }
        } else {
            assert(keys_upto(word, n) =~= keys_upto(word, n - 1).insert(k)) by {
                assert forall|x: u32| keys_upto(word, n).contains(x) implies keys_upto(word, n - 1).insert(k).contains(x) by {
                    let i = choose|i: int| 0 <= i < n && letter_key(word[i]) == x;
                    if i < n - 1 {
                        assert(0 <= i < n - 1 && letter_key(word[i]) == x);
                    }
                }
                assert forall|x: u32| keys_upto(word, n - 1).insert(k).contains(x) implies keys_upto(word, n).contains(x) by {
                    if x == k {
                        assert(0 <= n - 1 < n && letter_key(word[n - 1]) == x);
                    } else {
                        let i = choose|i: int| 0 <= i < n - 1 && letter_key(word[i]) == x;
                        assert(0 <= i < n && letter_key(word[i]) == x);
                    }
                }
            }
            lemma_words_chars_in_insert(words, keys_upto(word, n - 1), k, words.len() as int);
        }
    }
}

/// A word's score never exceeds the number of letters in the pool it is
/// scored against.
pub proof fn lemma_score_bound(word: Seq<char>, words: Seq<String>)
    ensures
        score(word, pool_frequency(words), word.len() as int) <= total_chars(words, words.len() as int),
{
    lemma_score_is_chars_in(word, words, word.len() as int);
    lemma_words_chars_in_bound(words, keys_upto(word, word.len() as int), words.len() as int);
}

proof fn lemma_score_monotone(word: Seq<char>, freq: spec_fn(u32) -> nat, i: int, n: int)
    requires
        0 <= i <= n,
    ensures
        score(word, freq, i) <= score(word, freq, n),
    decreases n - i,
{
    if i < n {
        lemma_score_monotone(word, freq, i, n - 1);
    }
}

proof fn lemma_total_key_bound(words: Seq<String>, k: u32, m: int)
    requires
        0 <= m,
    ensures
        total_key(words, k, m) <= total_chars(words, m),
    decreases m,
{
    if m > 0 {
        lemma_total_key_bound(words, k, m - 1);
        lemma_count_key_bound(words[m - 1]@, k, words[m - 1]@.len() as int);
    }
}

proof fn lemma_total_chars_monotone(words: Seq<String>, i: int, m: int)
    requires
        0 <= i <= m,
    ensures
        total_chars(words, i) <= total_chars(words, m),
    decreases m - i,
{
    if i < m {
        lemma_total_chars_monotone(words, i, m - 1);
    }
}

/// Score a word by summing the frequencies of its distinct letters.
/// Higher score = covers more common letters = better at narrowing candidates.
fn score_word(word: &str, freq: &HashMap<u32, usize>) -> (r: usize)
    requires
        score(word@, |k: u32| lookup_count(freq@, k), word@.len() as int) <= usize::MAX,
    ensures
        r == score(word@, |k: u32| lookup_count(freq@, k), word@.len() as int),
{
    broadcast use vstd::std_specs::hash::group_hash_axioms;

    let ghost f = |k: u32| lookup_count(freq@, k);
    let chars = chars_of(word);
    let mut unique: HashSet<u32> = HashSet::new();
    let mut total: usize = 0;
    let n = chars.len();
    let mut i: usize = 0;
    while i < n
        invariant
            0 <= i <= n,
            n == chars@.len(),
            chars@ == word@,
            f == (|k: u32| lookup_count(freq@, k)),
            score(word@, f, n as int) <= usize::MAX,
            total == score(word@, f, i as int),
            forall|k: u32| #[trigger] unique@.contains(k) <==> key_occurs(word@, k, i as int),
        decreases n - i,
    {
        let key = chars[i] as u32;
        proof {
            lemma_score_monotone(word@, f, i + 1, n as int);
        }
        if !unique.contains(&key) {
            unique.insert(key);
            let add: usize = match freq.get(&key) {
                Some(v) => *v,
                None => 0,
            };
            total = total + add;
        }
        proof {
            assert forall|k: u32| #[trigger] unique@.contains(k) <==> key_occurs(word@, k, i + 1) by {
                if key_occurs(word@, k, i + 1) && k != key {
                    let j = choose|j: int| 0 <= j < i + 1 && letter_key(word@[j]) == k;
                    assert(0 <= j < i && letter_key(word@[j]) == k);
                }
                if k == key {
                    assert(0 <= i < i + 1 && letter_key(word@[i as int]) == k);
                }
                if unique@.contains(k) && k != key {
                    let j = choose|j: int| 0 <= j < i && letter_key(word@[j]) == k;
                    assert(0 <= j < i + 1 && letter_key(word@[j]) == k);
                }
            }
        }
        i += 1;
    }
    total
}


/// Index `k` of `pool` holds the last word of highest score.
pub open spec fn is_last_best(pool: Seq<String>, candidates: Seq<String>, k: int) -> bool {
    &&& 0 <= k < pool.len()
    &&& forall|j: int| 0 <= j < pool.len() ==> word_score(#[trigger] pool[j], candidates) <= word_score(pool[k], candidates)
    &&& forall|j: int| k < j < pool.len() ==> word_score(#[trigger] pool[j], candidates) < word_score(pool[k], candidates)
}

/// Where the next guess is searched: among the candidates while at most six
/// remain, else among all words.
pub open spec fn search_pool(candidates: Seq<String>, all_words: Seq<String>) -> Seq<String> {
    if candidates.len() <= 6 {
        candidates
    } else {
        all_words
    }
}

/// The index of the last word of highest score in a non-empty pool.
pub open spec fn best_index(pool: Seq<String>, candidates: Seq<String>) -> int {
    choose|k: int| is_last_best(pool, candidates, k)
}

/// What `suggest_next` returns: nothing without candidates, the only
/// candidate when one is left, else the last word of highest score in the
/// search pool (nothing if that pool is empty).
pub open spec fn suggestion(candidates: Seq<String>, all_words: Seq<String>) -> Option<String> {
    if candidates.len() == 0 {
        None
    } else if candidates.len() == 1 {
        Some(candidates[0])
    } else {
        let pool = search_pool(candidates, all_words);
        if pool.len() == 0 {
            None
        } else {
            Some(pool[best_index(pool, candidates)])
        }
    }
}

proof fn lemma_last_best_unique(pool: Seq<String>, candidates: Seq<String>, a: int, b: int)
    requires
        is_last_best(pool, candidates, a),
        is_last_best(pool, candidates, b),
    ensures
        a == b,
{
    if a < b {
        assert(word_score(pool[b], candidates) < word_score(pool[a], candidates));
        assert(word_score(pool[a], candidates) <= word_score(pool[b], candidates));
    } else if b < a {
        assert(word_score(pool[a], candidates) < word_score(pool[b], candidates));
        assert(word_score(pool[b], candidates) <= word_score(pool[a], candidates));
    }
}

proof fn lemma_last_best_exists(pool: Seq<String>, candidates: Seq<String>)
    requires
        pool.len() > 0,
    ensures
        exists|k: int| is_last_best(pool, candidates, k),
    decreases pool.len(),
{
    if pool.len() == 1 {
        assert(is_last_best(pool, candidates, 0));
    } else {
        let front = pool.drop_last();
        lemma_last_best_exists(front, candidates);
        let k = choose|k: int| is_last_best(front, candidates, k);
        let last = pool.len() - 1;
        assert forall|j: int| 0 <= j < front.len() implies pool[j] == #[trigger] front[j] by {}
        if word_score(pool[last], candidates) >= word_score(pool[k], candidates) {
            assert forall|j: int| 0 <= j < pool.len() implies word_score(#[trigger] pool[j], candidates) <= word_score(pool[last], candidates) by {
                if j < last {
                    assert(pool[j] == front[j]);
                }
            }
            assert(is_last_best(pool, candidates, last));
        } else {
            assert forall|j: int| 0 <= j < pool.len() implies word_score(#[trigger] pool[j], candidates) <= word_score(pool[k], candidates) by {
                if j < last {
                    assert(pool[j] == front[j]);
                }
            }
            assert forall|j: int| k < j < pool.len() implies word_score(#[trigger] pool[j], candidates) < word_score(pool[k], candidates) by {
                if j < last {
                    assert(pool[j] == front[j]);
                }
            }
            assert(pool[k] == front[k]);
            assert(is_last_best(pool, candidates, k));
        }
    }
}

/// The suggestion ranks first in its pool: with two or more candidates and
/// a non-empty pool, it is the pool word of highest score, the last one
/// among equals.
pub proof fn lemma_suggestion_is_best(candidates: Seq<String>, all_words: Seq<String>)
    requires
        candidates.len() >= 2,
        search_pool(candidates, all_words).len() > 0,
    ensures
        ({
            let pool = search_pool(candidates, all_words);
            &&& is_last_best(pool, candidates, best_index(pool, candidates))
            &&& suggestion(candidates, all_words) == Some(pool[best_index(pool, candidates)])
        }),
{
    lemma_last_best_exists(search_pool(candidates, all_words), candidates);
}

/// While at most six candidates remain, the suggestion is one of them.
pub proof fn lemma_small_pool_suggests_candidate(candidates: Seq<String>, all_words: Seq<String>)
    requires
        1 <= candidates.len() <= 6,
    ensures
        suggestion(candidates, all_words) matches Some(w) && candidates.contains(w),
{
    if candidates.len() == 1 {
        assert(candidates[0] == candidates[0]);
    } else {
        lemma_suggestion_is_best(candidates, all_words);
        let k = best_index(candidates, candidates);
        assert(candidates[k] == candidates[k]);
    }
}

/// Suggests the next guess: the word whose distinct letters are most common
/// among the remaining candidates.
pub fn suggest_next(candidates: &[String], all_words: &[String]) -> (r: Option<String>)
    requires
        total_chars(candidates@, candidates@.len() as int) <= usize::MAX,
    ensures
        r == suggestion(candidates@, all_words@),
{
    broadcast use vstd::std_specs::hash::group_hash_axioms;

    if candidates.len() == 0 {
        return None;
    }
    if candidates.len() == 1 {
        return Some(candidates[0].clone());
    }
    let ghost cands = candidates@;
    // Build letter frequency across remaining candidates
    let mut freq: HashMap<u32, usize> = HashMap::new();
    let m = candidates.len();
    let mut j: usize = 0;
    while j < m
        invariant
            0 <= j <= m,
            m == cands.len(),
            cands == candidates@,
            total_chars(cands, m as int) <= usize::MAX,
            forall|k: u32| #[trigger] lookup_count(freq@, k) == total_key(cands, k, j as int),
        decreases m - j,
    {
        let chars = chars_of(candidates[j].as_str());
        let ghost w = candidates@[j as int]@;
        let n = chars.len();
        let mut i: usize = 0;
        while i < n
            invariant
                0 <= i <= n,
                n == w.len(),
                chars@ == w,
                0 <= j < m,
                m == cands.len(),
                w == cands[j as int]@,
                total_chars(cands, m as int) <= usize::MAX,
                forall|k: u32| #[trigger] lookup_count(freq@, k) == total_key(cands, k, j as int) + count_key(w, k, i as int),
            decreases n - i,
        {
            let key = chars[i] as u32;
            let current: usize = match freq.get(&key) {
                Some(v) => *v,
                None => 0,
            };
            proof {
                assert(lookup_count(freq@, key) == total_key(cands, key, j as int) + count_key(w, key, i as int));
                lemma_total_key_bound(cands, key, j + 1);
                lemma_count_key_bound(w, key, i + 1);
                lemma_total_chars_monotone(cands, j + 1, m as int);
                assert(total_key(cands, key, j + 1) == total_key(cands, key, j as int) + count_key(w, key, n as int));
                lemma_count_key_prefix(w, key, i + 1, n as int);
            }
            let ghost old_freq = freq@;
            freq.insert(key, current + 1);
            proof {
                assert forall|k: u32| #[trigger] lookup_count(freq@, k) == total_key(cands, k, j as int) + count_key(w, k, i + 1) by {
                    if k != key {
                        assert(lookup_count(freq@, k) == lookup_count(old_freq, k));
                    }
                }
            }
            i += 1;
        }
        j += 1;
    }
    let ghost f = |k: u32| lookup_count(freq@, k);
    proof {
        assert(f =~= pool_frequency(cands));
    }
    // For small candidate pools only search candidates; otherwise search all words
    // so we can find a guess that maximally splits the space even if it's not a candidate.
    let search: &[String] = if candidates.len() <= 6 { candidates } else { all_words };
    let ghost pool = search@;
    let p = search.len();
    let mut best: usize = 0;
    let mut best_score: usize = 0;
    let mut i: usize = 0;
    while i < p
        invariant
            0 <= i <= p,
            p == pool.len(),
            pool == search@,
            f == pool_frequency(cands),
            f == (|k: u32| lookup_count(freq@, k)),
            total_chars(cands, cands.len() as int) <= usize::MAX,
            i > 0 ==> best < i,
            i > 0 ==> best_score == word_score(pool[best as int], cands),
            forall|j: int| 0 <= j < i ==> word_score(#[trigger] pool[j], cands) <= word_score(pool[best as int], cands),
            forall|j: int| best < j < i ==> word_score(#[trigger] pool[j], cands) < word_score(pool[best as int], cands),
        decreases p - i,
    {
        proof {
            lemma_score_bound(pool[i as int]@, cands);
        }
        let sc = score_word(search[i].as_str(), &freq);
        if i == 0 || sc >= best_score {
            best = i;
            best_score = sc;
        }
        i += 1;
    }
    if p == 0 {
        return None;
    }
    proof {
        assert(is_last_best(pool, cands, best as int));
        lemma_last_best_unique(pool, cands, best as int, best_index(pool, cands));
    }
    Some(search[best].clone())
}

proof fn lemma_count_key_prefix(s: Seq<char>, k: u32, i: int, n: int)
    requires
        0 <= i <= n,
    ensures
        count_key(s, k, i) <= count_key(s, k, n),
    decreases n - i,
{
    if i < n {
        lemma_count_key_prefix(s, k, i, n - 1);
    }
}


/// Whether the user asked to list the remaining candidates: `list` in any
/// ASCII case, or `?`.
pub fn is_list_command(input: &str) -> (r: bool)
    ensures
        r == (ascii_lower_all(input@) == "list"@ || input@ == "?"@),
{
    proof {
        reveal_strlit("list");
        reveal_strlit("?");
    }
    let chars = chars_of(input);
    if chars.len() == 1 {
        let is_question = chars[0] == '?';
        proof {
            if is_question {
                assert(input@ =~= "?"@);
            }
            assert(ascii_lower_all(input@).len() == 1);
        }
        return is_question;
    }
    if chars.len() != 4 {
        proof {
            assert(ascii_lower_all(input@).len() != 4);
        }
        return false;
    }
    let expected = ['l', 'i', 's', 't'];
    let mut i: usize = 0;
    while i < 4
        invariant
            0 <= i <= 4,
            chars@ == input@,
            chars@.len() == 4,
            expected@ == "list"@,
            forall|j: int| 0 <= j < i ==> ascii_lower(#[trigger] chars@[j]) == expected@[j],
        decreases 4 - i,
    {
        if ascii_to_lower(chars[i]) != expected[i] {
            proof {
                reveal_strlit("?");
                assert(ascii_lower_all(input@)[i as int] != "list"@[i as int]);
                assert(input@.len() != "?"@.len());
            }
            return false;
        }
        i += 1;
    }
    proof {
        assert(ascii_lower_all(input@) =~= "list"@);
    }
    true
}

/// `A`..=`Z` mapped to `a`..=`z`, as `char::to_ascii_lowercase`.
fn ascii_to_lower(c: char) -> (r: char)
    ensures
        r == ascii_lower(c),
{
    if 'A' <= c && c <= 'Z' {
        ((c as u8) + 32) as char
    } else {
        c
    }
}

/// The candidate list as shown to the user: a heading with the count, then
/// each word uppercased, two spaces before it, ten to a line.
pub open spec fn candidates_text(candidates: Seq<String>) -> Seq<char> {
    "Remaining candidates ("@ + decimal(candidates.len()) + "):"@ + candidate_lines(
        candidates,
        candidates.len() as int,
    )
}

/// The listing of the first `n` candidates.
pub open spec fn candidate_lines(candidates: Seq<String>, n: int) -> Seq<char>
    decreases n,
{
    if n <= 0 {
        Seq::empty()
    } else {
        let i = n - 1;
        candidate_lines(candidates, i) + (if i > 0 && i % 10 == 0 {
            "\n"@
        } else {
            Seq::empty()
        }) + "  "@ + uppercased(candidates[i]@)
    }
}

/// Formats the remaining candidates for display.
pub fn format_candidates(candidates: &[String]) -> (output: String)
    ensures
        output@ == candidates_text(candidates@),
{
    let mut output = String::from_str("Remaining candidates (");
    let count = usize_to_decimal(candidates.len());
    output.append(count.as_str());
    output.append("):");
    let ghost head = output@;
    let n = candidates.len();
    let mut i: usize = 0;
    while i < n
        invariant
            0 <= i <= n,
            n == candidates@.len(),
            head == "Remaining candidates ("@ + decimal(n as nat) + "):"@,
            output@ == head + candidate_lines(candidates@, i as int),
        decreases n - i,
    {
        if i > 0 && i % 10 == 0 {
            output.append("\n");
        }
        output.append("  ");
        let upper = to_uppercase(candidates[i].as_str());
        output.append(upper.as_str());
        proof {
            assert(output@ =~= head + candidate_lines(candidates@, i + 1));
        }
        i += 1;
    }
    output
}


/// Splitting the first `n` characters of `s` at `\n`: the lines completed so
/// far and the line being read.
pub open spec fn split_state(s: Seq<char>, n: int) -> (Seq<Seq<char>>, Seq<char>)
    decreases n,
{
    if n <= 0 {
        (Seq::empty(), Seq::empty())
    } else {
        let (done, current) = split_state(s, n - 1);
        if s[n - 1] == '\n' {
            (done.push(current), Seq::empty())
        } else {
            (done, current.push(s[n - 1]))
        }
    }
}

/// The pieces of `s` between `\n` characters, the last one included.
pub open spec fn text_pieces(s: Seq<char>) -> Seq<Seq<char>> {
    split_state(s, s.len() as int).0.push(split_state(s, s.len() as int).1)
}

proof fn lemma_split_prefix(a: Seq<char>, t: Seq<char>, m: int)
    requires
        0 <= m <= a.len(),
    ensures
        split_state(a + t, m) == split_state(a, m),
    decreases m,
{
    if m > 0 {
        lemma_split_prefix(a, t, m - 1);
        assert((a + t)[m - 1] == a[m - 1]);
    }
}

proof fn lemma_split_after_newline(a: Seq<char>, b: Seq<char>, k: int)
    requires
        0 <= k <= b.len(),
    ensures
        split_state(a + seq!['\n'] + b, a.len() + 1 + k) == (
            text_pieces(a) + split_state(b, k).0,
            split_state(b, k).1,
        ),
    decreases k,
{
    let x = a + seq!['\n'] + b;
    if k == 0 {
        assert(x =~= a + (seq!['\n'] + b));
        lemma_split_prefix(a, seq!['\n'] + b, a.len() as int);
        assert(x[a.len() as int] == '\n');
        assert(text_pieces(a) + Seq::<Seq<char>>::empty() =~= text_pieces(a));
    } else {
        lemma_split_after_newline(a, b, k - 1);
        assert(x[a.len() + k] == b[k - 1]);
        let (done, current) = split_state(b, k - 1);
        assert((text_pieces(a) + done).push(current) =~= text_pieces(a) + done.push(current));
    }
}

proof fn lemma_split_single_line(s: Seq<char>, n: int)
    requires
        0 <= n <= s.len(),
        !s.contains('\n'),
    ensures
        split_state(s, n) == (Seq::<Seq<char>>::empty(), s.take(n)),
    decreases n,
{
    if n > 0 {
        lemma_split_single_line(s, n - 1);
        assert(s[n - 1] != '\n');
        assert(s.take(n - 1).push(s[n - 1]) =~= s.take(n));
    }
}

/// The lines of `a`, a newline and `b` are the lines of `a` followed by
/// those of `b`.
pub proof fn lemma_pieces_of_joined(a: Seq<char>, b: Seq<char>)
    ensures
        text_pieces(a + seq!['\n'] + b) == text_pieces(a) + text_pieces(b),
{
    let x = a + seq!['\n'] + b;
    lemma_split_after_newline(a, b, b.len() as int);
    assert(x.len() == a.len() + 1 + b.len());
    let (done, current) = split_state(b, b.len() as int);
    assert((text_pieces(a) + done).push(current) =~= text_pieces(a) + done.push(current));
}

/// A text without a newline is a single line.
pub proof fn lemma_pieces_of_line(s: Seq<char>)
    requires
        !s.contains('\n'),
    ensures
        text_pieces(s) == seq![s],
{
    lemma_split_single_line(s, s.len() as int);
    assert(s.take(s.len() as int) =~= s);
    assert(Seq::<Seq<char>>::empty().push(s) =~= seq![s]);
}

/// A dictionary entry: its line trimmed and lowercased.
pub open spec fn clean_entry(line: Seq<char>) -> Seq<char> {
    lowercased(trimmed(line))
}

/// Whether a text takes five bytes in UTF-8, as `str::len() == 5` tests.
pub open spec fn five_bytes(w: Seq<char>) -> bool {
    vstd::utf8::encode_utf8(w).len() as usize == 5
}

/// The words a dictionary text yields: each line cleaned, those of five
/// bytes kept, in order.
pub open spec fn dictionary_words(text: Seq<char>) -> Seq<Seq<char>> {
    text_pieces(text).map_values(|l: Seq<char>| clean_entry(l)).filter(|w: Seq<char>| five_bytes(w))
}

/// A dictionary text yields a word for each of its lines, the first and the
/// last among them, whose cleaned form takes five bytes; and each word it
/// yields takes five bytes and is the cleaned form of one of its lines.
pub proof fn lemma_dictionary_keeps_every_five_byte_line(text: Seq<char>)
    ensures
        forall|j: int|
            0 <= j < text_pieces(text).len() && five_bytes(clean_entry(#[trigger] text_pieces(text)[j]))
                ==> dictionary_words(text).contains(clean_entry(text_pieces(text)[j])),
        forall|w: Seq<char>| #[trigger]
            dictionary_words(text).contains(w) ==> five_bytes(w) && exists|j: int|
                0 <= j < text_pieces(text).len() && w == clean_entry(#[trigger] text_pieces(text)[j]),
{
    let p = text_pieces(text);
    let cleaned = p.map_values(|l: Seq<char>| clean_entry(l));
    let keep = |w: Seq<char>| five_bytes(w);
    assert(dictionary_words(text) == cleaned.filter(keep));
    assert forall|j: int| 0 <= j < p.len() && five_bytes(clean_entry(#[trigger] p[j])) implies cleaned.filter(
        keep,
    ).contains(clean_entry(p[j])) by {
        assert(cleaned[j] == clean_entry(p[j]));
        cleaned.lemma_filter_contains(keep, j);
    }
    assert forall|w: Seq<char>| #[trigger] cleaned.filter(keep).contains(w) implies five_bytes(w) && exists|j: int|
        0 <= j < p.len() && w == clean_entry(#[trigger] p[j]) by {
        let k = choose|k: int| 0 <= k < cleaned.filter(keep).len() && cleaned.filter(keep)[k] == w;
        cleaned.lemma_filter_pred(keep, k);
        cleaned.lemma_filter_contains_rev(keep, w);
        let j = choose|j: int| 0 <= j < cleaned.len() && cleaned[j] == w;
        assert(w == clean_entry(p[j]));
    }
}

/// The words of two texts joined by a newline are the words of the first
/// followed by those of the second.
pub proof fn lemma_dictionary_of_joined(a: Seq<char>, b: Seq<char>)
    ensures
        dictionary_words(a + seq!['\n'] + b) == dictionary_words(a) + dictionary_words(b),
{
    lemma_pieces_of_joined(a, b);
    let pa = text_pieces(a);
    let pb = text_pieces(b);
    let clean = |l: Seq<char>| clean_entry(l);
    let keep = |w: Seq<char>| five_bytes(w);
    assert((pa + pb).map_values(clean) =~= pa.map_values(clean) + pb.map_values(clean));
    Seq::filter_distributes_over_add(pa.map_values(clean), pb.map_values(clean), keep);
}

/// A text of one line yields its cleaned form when that takes five bytes,
/// and no word otherwise.
pub proof fn lemma_dictionary_of_line(s: Seq<char>)
    requires
        !s.contains('\n'),
    ensures
        dictionary_words(s) == if five_bytes(clean_entry(s)) {
            seq![clean_entry(s)]
        } else {
            Seq::<Seq<char>>::empty()
        },
{
    lemma_pieces_of_line(s);
    let clean = |l: Seq<char>| clean_entry(l);
    let keep = |w: Seq<char>| five_bytes(w);
    let one = seq![s].map_values(clean);
    assert(one =~= seq![clean_entry(s)]);
    reveal_with_fuel(Seq::<_>::filter, 2);
    assert(one.drop_last() =~= Seq::<Seq<char>>::empty());
    assert(Seq::<Seq<char>>::empty().push(clean_entry(s)) =~= seq![clean_entry(s)]);
}

proof fn lemma_push_clean_filter(done: Seq<Seq<char>>, line: Seq<char>)
    ensures
        done.push(line).map_values(|l: Seq<char>| clean_entry(l)).filter(|w: Seq<char>| five_bytes(w))
            == if five_bytes(clean_entry(line)) {
            done.map_values(|l: Seq<char>| clean_entry(l)).filter(|w: Seq<char>| five_bytes(w)).push(
                clean_entry(line),
            )
        } else {
            done.map_values(|l: Seq<char>| clean_entry(l)).filter(|w: Seq<char>| five_bytes(w))
        },
{
    reveal_with_fuel(Seq::<_>::filter, 1);
    let mapped = done.push(line).map_values(|l: Seq<char>| clean_entry(l));
    assert(mapped.drop_last() =~= done.map_values(|l: Seq<char>| clean_entry(l)));
    assert(mapped.last() == clean_entry(line));
}

/// The pieces of `text` between `\n` characters, the last one included.
pub(crate) fn split_pieces(text: &str) -> (pieces: Vec<String>)
    ensures
        pieces@.map_values(|p: String| p@) == text_pieces(text@),
{
    let ghost t = text@;
    let mut pieces: Vec<String> = Vec::new();
    let mut current = String::new();
    for c in it: text.chars()
        invariant
            it.seq() == t,
            t == text@,
            current@ == split_state(t, it.index()).1,
            pieces@.map_values(|p: String| p@) == split_state(t, it.index()).0,
    {
        proof {
            assert(c == t[it.index()]);
        }
        if c == '\n' {
            let ghost before = pieces@;
            pieces.push(current);
            proof {
                assert(pieces@.map_values(|p: String| p@) =~= before.map_values(|p: String| p@).push(
                    split_state(t, it.index()).1,
                ));
            }
            current = String::new();
        } else {
            push_char(&mut current, c);
        }
    }
    let ghost before = pieces@;
    pieces.push(current);
    proof {
        assert(pieces@.map_values(|p: String| p@) =~= before.map_values(|p: String| p@).push(
            split_state(t, t.len() as int).1,
        ));
    }
    pieces
}

/// Loads the dictionary: every line of the word list, trimmed and
/// lowercased, that takes five bytes.
pub fn load_words() -> (words: Vec<String>)
    ensures
        words@.map_values(|w: String| w@) == dictionary_words(WORDS@),
{
    let pieces = split_pieces(WORDS);
    let ghost lines = text_pieces(WORDS@);
    let mut words: Vec<String> = Vec::new();
    let n = pieces.len();
    let mut i: usize = 0;
    while i < n
        invariant
            0 <= i <= n,
            n == pieces@.len(),
            pieces@.map_values(|p: String| p@) == lines,
            words@.map_values(|w: String| w@) == lines.take(i as int).map_values(
                |l: Seq<char>| clean_entry(l),
            ).filter(|w: Seq<char>| five_bytes(w)),
        decreases n - i,
    {
        let ghost line = pieces@[i as int]@;
        proof {
            assert(lines[i as int] == line);
            assert(lines.take(i + 1) =~= lines.take(i as int).push(line));
            lemma_push_clean_filter(lines.take(i as int), line);
        }
        keep_entry(&mut words, &pieces[i]);
        i += 1;
    }
    proof {
        assert(lines.take(n as int) =~= lines);
    }
    words
}

/// Cleans a dictionary line and keeps it if it takes five bytes.
fn keep_entry(words: &mut Vec<String>, line: &String)
    ensures
        final(words)@.map_values(|w: String| w@) == if five_bytes(clean_entry(line@)) {
            old(words)@.map_values(|w: String| w@).push(clean_entry(line@))
        } else {
            old(words)@.map_values(|w: String| w@)
        },
{
    let trimmed = trim(line.as_str());
    let lower = to_lowercase(trimmed);
    if lower.as_str().len() == 5 {
        words.push(lower);
        proof {
            assert(words@.map_values(|w: String| w@) =~= old(words)@.map_values(|w: String| w@).push(clean_entry(line@)));
        }
    }
}


proof fn lemma_total_chars_push(words: Seq<String>, extra: String, m: int)
    requires
        0 <= m <= words.len(),
    ensures
        total_chars(words.push(extra), m) == total_chars(words, m),
    decreases m,
{
    if m > 0 {
        lemma_total_chars_push(words, extra, m - 1);
    }
}

/// Filtering never adds letters: the kept words have at most as many
/// letters in all as the candidates, and each kept word is a candidate.
pub proof fn lemma_filter_shrinks(words: Seq<String>, p: spec_fn(String) -> bool)
    ensures
        total_chars(words.filter(p), words.filter(p).len() as int) <= total_chars(words, words.len() as int),
        min_five_letters(words) ==> min_five_letters(words.filter(p)),
    decreases words.len(),
{
    reveal_with_fuel(Seq::<_>::filter, 1);
    if words.len() > 0 {
        let front = words.drop_last();
        let x = words.last();
        lemma_filter_shrinks(front, p);
        lemma_total_chars_push(front, x, front.len() as int);
        assert(words =~= front.push(x));
        if p(x) {
            lemma_total_chars_push(front.filter(p), x, front.filter(p).len() as int);
        }
        if min_five_letters(words) {
            assert(min_five_letters(front)) by {
                assert forall|i: int| 0 <= i < front.len() implies (#[trigger] front[i])@.len() >= 5 by {
                    assert(front[i] == words[i]);
                }
            }
            assert forall|i: int| 0 <= i < words.filter(p).len() implies (#[trigger] words.filter(p)[i])@.len() >= 5 by {
                if i < front.filter(p).len() {
                    assert(words.filter(p)[i] == front.filter(p)[i]);
                } else {
                    assert(words.filter(p)[i] == x);
                    assert(x == words[words.len() - 1]);
                }
            }
        }
    }
}


/// Whether a dictionary can be played: every word has five letters or more
/// (checking a shorter word against some clue would read past its end), and
/// all its letters together can be counted in a `usize`.
pub fn playable_dictionary(words: &[String]) -> (r: bool)
    ensures
        r == (min_five_letters(words@) && total_chars(words@, words@.len() as int) <= usize::MAX),
{
    let n = words.len();
    let mut total: usize = 0;
    let mut i: usize = 0;
    while i < n
        invariant
            0 <= i <= n,
            n == words@.len(),
            total == total_chars(words@, i as int),
            forall|j: int| 0 <= j < i ==> (#[trigger] words@[j])@.len() >= 5,
        decreases n - i,
    {
        let letters = chars_of(words[i].as_str()).len();
        if letters < 5 {
            return false;
        }
        match total.checked_add(letters) {
            Some(t) => {
                total = t;
            },
            None => {
                proof {
                    lemma_total_chars_monotone(words@, i + 1, n as int);
                }
                return false;
            },
        }
        i += 1;
    }
    true
}

} // verus!
