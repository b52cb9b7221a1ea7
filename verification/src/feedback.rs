use vstd::prelude::*;
use crate::clue::{
    Hint,
    letter_key,
    count_key,
    present_count,
    gray_seen,
    key_occurs,
    count_ok,
    spec_matches_positions,
    word_fits_clue,
    lemma_present_count_bound,
};

verus! {

/// Among the first `n` positions, how many show letter key `k` in the guess
/// at a position where guess and answer differ.
pub open spec fn unmatched_in_guess(guess: Seq<char>, answer: Seq<char>, k: u32, n: int) -> nat
    decreases n,
{
    if n <= 0 {
        0
    } else {
        unmatched_in_guess(guess, answer, k, n - 1) + if letter_key(guess[n - 1]) == k
            && guess[n - 1] != answer[n - 1] {
            1nat
        } else {
            0nat
        }
    }
}

/// Among the first `n` positions, how many show letter key `k` in the answer
/// at a position where guess and answer differ (answer letters left over
/// after the greens).
pub open spec fn unmatched_in_answer(guess: Seq<char>, answer: Seq<char>, k: u32, n: int) -> nat
    decreases n,
{
    if n <= 0 {
        0
    } else {
        unmatched_in_answer(guess, answer, k, n - 1) + if letter_key(answer[n - 1]) == k
            && guess[n - 1] != answer[n - 1] {
            1nat
        } else {
            0nat
        }
    }
}

/// Among the first `n` positions, how many show letter key `k` in both guess
/// and answer.
pub open spec fn matched(guess: Seq<char>, answer: Seq<char>, k: u32, n: int) -> nat
    decreases n,
{
    if n <= 0 {
        0
    } else {
        matched(guess, answer, k, n - 1) + if letter_key(guess[n - 1]) == k && guess[n - 1]
            == answer[n - 1] {
            1nat
        } else {
            0nat
        }
    }
}

/// The feedback Wordle gives at position `i` of a five-letter guess against
/// a five-letter answer: green where the letters agree; otherwise yellow as
/// long as the answer still has unmatched copies of the letter, taken left to
/// right; gray once they are used up.
pub open spec fn wordle_hint(guess: Seq<char>, answer: Seq<char>, i: int) -> Hint {
    if guess[i] == answer[i] {
        Hint::Green
    } else if unmatched_in_guess(guess, answer, letter_key(guess[i]), i) < unmatched_in_answer(
        guess,
        answer,
        letter_key(guess[i]),
        5,
    ) {
        Hint::Yellow
    } else {
        Hint::Gray
    }
}

/// The five hints Wordle shows for `guess` when the hidden word is `answer`.
pub open spec fn wordle_feedback(guess: Seq<char>, answer: Seq<char>) -> Seq<Hint> {
    Seq::new(5, |i: int| wordle_hint(guess, answer, i))
}

proof fn lemma_min_step(u: nat, a: nat)
    ensures
        (if u < a { u } else { a }) + (if u < a { 1nat } else { 0nat }) == (if u + 1 < a { u + 1 } else { a }),
{
}

/// The counting facts behind the soundness of the filter, by induction on
/// the number of positions looked at.
proof fn lemma_feedback_counts(guess: Seq<char>, answer: Seq<char>, k: u32, n: int)
    requires
        guess.len() == 5,
        answer.len() == 5,
        0 <= n <= 5,
    ensures
        count_key(answer, k, n) == matched(guess, answer, k, n) + unmatched_in_answer(
            guess,
            answer,
            k,
            n,
        ),
        present_count(guess, wordle_feedback(guess, answer), k, n) == matched(guess, answer, k, n)
            + (if unmatched_in_guess(guess, answer, k, n) < unmatched_in_answer(guess, answer, k, 5) {
            unmatched_in_guess(guess, answer, k, n)
        } else {
            unmatched_in_answer(guess, answer, k, 5)
        }),
        gray_seen(guess, wordle_feedback(guess, answer), k, n) <==> unmatched_in_guess(
            guess,
            answer,
            k,
            n,
        ) > unmatched_in_answer(guess, answer, k, 5),
    decreases n,
{
    let fb = wordle_feedback(guess, answer);
    let ua = unmatched_in_answer(guess, answer, k, 5);
    if n > 0 {
        lemma_feedback_counts(guess, answer, k, n - 1);
        let j = n - 1;
        let ug = unmatched_in_guess(guess, answer, k, j);
        assert(fb[j] == wordle_hint(guess, answer, j));
        lemma_min_step(ug, ua);
        if letter_key(guess[j]) == k && guess[j] != answer[j] {
            if ug >= ua {
                assert(fb[j] == Hint::Gray);
                assert(gray_seen(guess, fb, k, n)) by {
                    assert(0 <= j < n && letter_key(guess[j]) == k && fb[j] == Hint::Gray);
                }
            } else {
                assert(fb[j] == Hint::Yellow);
                if gray_seen(guess, fb, k, n) {
                    let w = choose|w: int| 0 <= w < n && letter_key(guess[w]) == k && fb[w] == Hint::Gray;
                    assert(w < j);
                    assert(gray_seen(guess, fb, k, j));
                }
            }
        } else {
            if gray_seen(guess, fb, k, n) {
                let w = choose|w: int| 0 <= w < n && letter_key(guess[w]) == k && fb[w] == Hint::Gray;
                if w == j {
                    assert(guess[j] != answer[j]);
                }
                assert(w < j);
                assert(gray_seen(guess, fb, k, j));
            }
            if gray_seen(guess, fb, k, j) {
                let w = choose|w: int| 0 <= w < j && letter_key(guess[w]) == k && fb[w] == Hint::Gray;
                assert(0 <= w < n && letter_key(guess[w]) == k && fb[w] == Hint::Gray);
            }
        }
        if letter_key(guess[j]) == k && guess[j] != answer[j] && ug >= ua {
        } else if gray_seen(guess, fb, k, j) {
            let w = choose|w: int| 0 <= w < j && letter_key(guess[w]) == k && fb[w] == Hint::Gray;
            assert(0 <= w < n && letter_key(guess[w]) == k && fb[w] == Hint::Gray);
        }
    } else {
        assert(!gray_seen(guess, fb, k, n));
    }
}

/// Soundness of a clue: the hidden word always satisfies the clue made of a
/// guess and the feedback Wordle gave for it, so filtering never drops the
/// answer.
pub proof fn lemma_answer_fits_its_feedback(guess: Seq<char>, answer: Seq<char>)
    requires
        guess.len() == 5,
        answer.len() == 5,
    ensures
        word_fits_clue(answer, guess, wordle_feedback(guess, answer)),
{
    let fb = wordle_feedback(guess, answer);
    assert(spec_matches_positions(answer, guess, fb)) by {
        assert forall|i: int| 0 <= i < 5 implies {
            &&& fb[i] == Hint::Green ==> answer[i] == guess[i]
            &&& fb[i] == Hint::Yellow ==> answer[i] != guess[i]
        } by {
            assert(fb[i] == wordle_hint(guess, answer, i));
        }
    }
    assert forall|k: u32| #![trigger key_occurs(guess, k, 5)] key_occurs(guess, k, 5) implies count_ok(
        count_key(answer, k, answer.len() as int),
        present_count(guess, fb, k, 5) as usize,
        gray_seen(guess, fb, k, 5),
    ) by {
        lemma_feedback_counts(guess, answer, k, 5);
        lemma_present_count_bound(guess, fb, k, 5);
    }
}


proof fn lemma_guess_split(guess: Seq<char>, answer: Seq<char>, k: u32, n: int)
    requires
        0 <= n,
    ensures
        count_key(guess, k, n) == matched(guess, answer, k, n) + unmatched_in_guess(guess, answer, k, n),
    decreases n,
{
    if n > 0 {
        lemma_guess_split(guess, answer, k, n - 1);
    }
}

proof fn lemma_count_key_absent(s: Seq<char>, k: u32, n: int)
    requires
        0 <= n,
        !key_occurs(s, k, n),
    ensures
        count_key(s, k, n) == 0,
    decreases n,
{
    if n > 0 {
        assert(!key_occurs(s, k, n - 1)) by {
            if key_occurs(s, k, n - 1) {
                let j = choose|j: int| 0 <= j < n - 1 && letter_key(s[j]) == k;
                assert(0 <= j < n && letter_key(s[j]) == k);
            }
        }
        lemma_count_key_absent(s, k, n - 1);
        if letter_key(s[n - 1]) == k {
            assert(0 <= n - 1 < n && letter_key(s[n - 1]) == k);
        }
    }
}

/// How many tiles of a letter Wordle colors (green or yellow): as many as the
/// letter occurs in the guess or in the hidden word, whichever is fewer.
pub proof fn lemma_colored_tiles(guess: Seq<char>, answer: Seq<char>, k: u32)
    requires
        guess.len() == 5,
        answer.len() == 5,
    ensures
        present_count(guess, wordle_feedback(guess, answer), k, 5) == if count_key(guess, k, 5)
            < count_key(answer, k, 5) {
            count_key(guess, k, 5)
        } else {
            count_key(answer, k, 5)
        },
{
    lemma_feedback_counts(guess, answer, k, 5);
    lemma_guess_split(guess, answer, k, 5);
}

/// A word the filter keeps for a truthful clue looks like the hidden word to
/// that guess: were it the hidden word, Wordle would color as many tiles of
/// each letter, and green at least every tile the real feedback shows green.
/// (It may show green where the real feedback is gray: the gray positions are
/// not checked.)
pub proof fn lemma_kept_word_shows_same_colors(guess: Seq<char>, answer: Seq<char>, word: Seq<char>)
    requires
        guess.len() == 5,
        answer.len() == 5,
        word.len() == 5,
        word_fits_clue(word, guess, wordle_feedback(guess, answer)),
    ensures
        forall|k: u32|
            present_count(guess, wordle_feedback(guess, word), k, 5) == #[trigger] present_count(
                guess,
                wordle_feedback(guess, answer),
                k,
                5,
            ),
        forall|i: int|
            0 <= i < 5 && wordle_feedback(guess, answer)[i] == Hint::Green ==> #[trigger] wordle_feedback(
                guess,
                word,
            )[i] == Hint::Green,
{
    let fa = wordle_feedback(guess, answer);
    assert forall|k: u32|
        present_count(guess, wordle_feedback(guess, word), k, 5) == #[trigger] present_count(
            guess,
            fa,
            k,
            5,
        ) by {
        lemma_colored_tiles(guess, answer, k);
        lemma_colored_tiles(guess, word, k);
        if key_occurs(guess, k, 5) {
            lemma_feedback_counts(guess, answer, k, 5);
            lemma_guess_split(guess, answer, k, 5);
            lemma_present_count_bound(guess, fa, k, 5);
            assert(count_ok(count_key(word, k, 5), present_count(guess, fa, k, 5) as usize, gray_seen(guess, fa, k, 5)));
        } else {
            lemma_count_key_absent(guess, k, 5);
        }
    }
    assert forall|i: int|
        0 <= i < 5 && fa[i] == Hint::Green implies #[trigger] wordle_feedback(guess, word)[i] == Hint::Green by {
        assert(fa[i] == wordle_hint(guess, answer, i));
        assert(spec_matches_positions(word, guess, fa));
        assert(wordle_feedback(guess, word)[i] == wordle_hint(guess, word, i));
    }
}

} // verus!
