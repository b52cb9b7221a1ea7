use vstd::prelude::*;
use vstd::string::StringExecFns;
use crate::feedback::wordle_feedback;
use vstd::utf8::is_ascii_chars;
use crate::text::ascii_lower;
use crate::clue::{Hint, Clue, parse_outcome, utf8_len, word_fits_clue, spec_is_ascii_alphabetic, is_ascii_alphabetic};
use crate::solver::{
    filter_candidates,
    suggest_next,
    suggestion,
    is_list_command,
    format_candidates,
    candidates_text,
    survives,
    fits_all_clues,
    total_chars,
    min_five_letters,
    lemma_filter_shrinks,
    lemma_filter_within,
    lemma_filter_twice,
    lemma_min_five_checkable,
    lemma_small_pool_suggests_candidate,
    split_pieces,
    text_pieces,
    lemma_pieces_of_joined,
    lemma_pieces_of_line,
};
use crate::text::{
    chars_of,
    trim,
    trimmed,
    decimal,
    usize_to_decimal,
    uppercased,
    lowercased,
    to_uppercase,
    to_lowercase,
    ascii_lower_all,
};

verus! {

/// The banner shown when a game starts.
pub const BANNER: &'static str = "╔══════════════════════════════════╗
║        Wordle Solver CLI         ║
╚══════════════════════════════════╝

Feedback format: 5 chars, one per letter
  G = Green  (correct letter, correct position)
  Y = Yellow (correct letter, wrong position)
  _ = Gray   (letter not in word)

Commands:
  list  - Show all remaining candidates

Example: guess 'crane', feedback 'G_Y__'
         means C=green, R=gray, A=yellow, N=gray, E=gray

";

/// How a game ended.
#[derive(Debug, PartialEq)]
pub enum GameResult {
    /// The player reported all greens in this round.
    Solved { round: usize },
    /// No dictionary word fits the clues given.
    NoCandidates,
    /// Six rounds passed; up to five of the remaining candidates.
    GameOver { remaining: Vec<String> },
    /// The input ended before the game did.
    InputClosed,
}

/// How a game ended, as the contracts see it.
pub enum Outcome {
    Solved(nat),
    NoCandidates,
    GameOver(Seq<String>),
    InputClosed,
}

impl View for GameResult {
    type V = Outcome;

    open spec fn view(&self) -> Outcome {
        match self {
            GameResult::Solved { round } => Outcome::Solved(*round as nat),
            GameResult::NoCandidates => Outcome::NoCandidates,
            GameResult::GameOver { remaining } => Outcome::GameOver(remaining@),
            GameResult::InputClosed => Outcome::InputClosed,
        }
    }
}

/// The state of a game as the contracts see it: the remaining candidates,
/// the round, and the guess waiting for its feedback, if any.
pub struct GameModel {
    pub candidates: Seq<String>,
    pub round: nat,
    pub pending: Option<Seq<char>>,
}

/// The state of a game between two lines of input.
pub struct GameState {
    pub candidates: Vec<String>,
    pub round: usize,
    pub pending: Option<String>,
}

impl View for GameState {
    type V = GameModel;

    open spec fn view(&self) -> GameModel {
        GameModel {
            candidates: self.candidates@,
            round: self.round as nat,
            pending: match self.pending {
                Some(g) => Some(g@),
                None => None,
            },
        }
    }
}

/// The first `n` words uppercased and joined by `, `.
pub open spec fn joined_upper(words: Seq<String>, n: int) -> Seq<char>
    decreases n,
{
    if n <= 0 {
        Seq::empty()
    } else if n == 1 {
        uppercased(words[0]@)
    } else {
        joined_upper(words, n - 1) + ", "@ + uppercased(words[n - 1]@)
    }
}

/// The heading of a round: its number, how many candidates remain, and the
/// candidates themselves when at most ten remain.
pub open spec fn round_header(round: nat, candidates: Seq<String>) -> Seq<char> {
    "--- Round "@ + decimal(round) + " ---\n"@ + "Candidates remaining: "@ + decimal(candidates.len())
        + "\n"@ + (if candidates.len() <= 10 {
        "Candidates: "@ + joined_upper(candidates, candidates.len() as int) + "\n"@
    } else {
        Seq::empty()
    }) + "\n"@
}

/// A suggestion line: `lead`, the word uppercased and a closing quote; nothing
/// without a suggestion.
pub open spec fn suggestion_line(s: Option<String>, lead: Seq<char>) -> Seq<char> {
    match s {
        Some(w) => lead + uppercased(w@) + "\"\n"@,
        None => Seq::empty(),
    }
}

/// What a game prints before reading its first line.
pub open spec fn opening_text(all_words: Seq<String>) -> Seq<char> {
    BANNER@ + "Dictionary loaded: "@ + decimal(all_words.len()) + " five-letter words\n"@ + "\n"@
        + suggestion_line(suggestion(all_words, all_words), "Suggested first guess: \""@) + "\n"@
        + round_header(1, all_words) + "Enter your guess (5 letters, or 'list'): "@
}

/// A game can go on: its round lies in 1..=6, every candidate has at least
/// five letters, and their letter count fits a `usize`.
pub open spec fn game_ready(m: GameModel) -> bool {
    &&& 1 <= m.round <= 6
    &&& min_five_letters(m.candidates)
    &&& total_chars(m.candidates, m.candidates.len() as int) <= usize::MAX
}

fn append_round_header(out: &mut String, round: usize, candidates: &Vec<String>)
    ensures
        final(out)@ == old(out)@ + round_header(round as nat, candidates@),
{
    out.append("--- Round ");
    let r = usize_to_decimal(round);
    out.append(r.as_str());
    out.append(" ---\n");
    out.append("Candidates remaining: ");
    let n = usize_to_decimal(candidates.len());
    out.append(n.as_str());
    out.append("\n");
    if candidates.len() <= 10 {
        out.append("Candidates: ");
        append_joined_upper(out, candidates);
        out.append("\n");
    }
    out.append("\n");
}

fn append_joined_upper(out: &mut String, words: &Vec<String>)
    ensures
        final(out)@ == old(out)@ + joined_upper(words@, words@.len() as int),
{
    let ghost start = out@;
    let n = words.len();
    let mut i: usize = 0;
    while i < n
        invariant
            0 <= i <= n,
            n == words@.len(),
            out@ == start + joined_upper(words@, i as int),
        decreases n - i,
    {
        if i > 0 {
            out.append(", ");
        }
        let upper = to_uppercase(words[i].as_str());
        out.append(upper.as_str());
        proof {
            assert(out@ =~= start + joined_upper(words@, i + 1));
        }
        i += 1;
    }
}

fn append_suggestion(out: &mut String, s: &Option<String>, lead: &str)
    ensures
        final(out)@ == old(out)@ + suggestion_line(*s, lead@),
{
    if let Some(w) = s {
        out.append(lead);
        let upper = to_uppercase(w.as_str());
        out.append(upper.as_str());
        out.append("\"\n");
    }
}


pub open spec fn guess_prompt() -> Seq<char> {
    "Enter your guess (5 letters, or 'list'): "@
}

pub open spec fn feedback_prompt() -> Seq<char> {
    "Enter feedback (G/Y/_ for each letter): "@
}

/// An acceptable guess: five bytes, all ASCII letters.
pub open spec fn valid_guess(line: Seq<char>) -> bool {
    &&& utf8_len(line) == 5
    &&& forall|i: int| 0 <= i < line.len() ==> spec_is_ascii_alphabetic(#[trigger] line[i])
}

/// Acceptable (uppercased) feedback: five bytes, each a `G`, `Y` or `_`.
pub open spec fn valid_feedback(upper: Seq<char>) -> bool {
    &&& utf8_len(upper) == 5
    &&& forall|i: int| 0 <= i < upper.len() ==> {
        let c = #[trigger] upper[i];
        c == 'G' || c == 'Y' || c == '_'
    }
}

/// A list request: `list` in any ASCII case, or `?`.
pub open spec fn is_list_request(line: Seq<char>) -> bool {
    ascii_lower_all(line) == "list"@ || line == "?"@
}

/// The result of one step: the next state, what is printed, and how the game
/// ended if it did.
pub struct StepModel {
    pub next: GameModel,
    pub output: Seq<char>,
    pub outcome: Option<Outcome>,
}

pub open spec fn keep(m: GameModel, output: Seq<char>) -> StepModel {
    StepModel { next: m, output, outcome: None }
}

pub open spec fn closed(m: GameModel) -> StepModel {
    StepModel { next: m, output: Seq::empty(), outcome: Some(Outcome::InputClosed) }
}

/// The candidates that fit a clue given by its letters and hints.
pub open spec fn fits_parts(cw: Seq<char>, hints: Seq<Hint>) -> spec_fn(String) -> bool {
    |w: String| word_fits_clue(w@, cw, hints)
}

/// The candidates shown when the guesses run out: the first five.
pub open spec fn leftover(candidates: Seq<String>) -> Seq<String> {
    candidates.take(if candidates.len() < 5 { candidates.len() as int } else { 5 })
}

/// What happens once valid feedback `upper` for the pending guess `guess` is read.
pub open spec fn feedback_step(m: GameModel, all_words: Seq<String>, guess: Seq<char>, upper: Seq<char>) -> StepModel {
    if upper == "GGGGG"@ {
        StepModel {
            next: m,
            output: "\n"@ + "Congratulations! Solved in "@ + decimal(m.round) + " guess"@ + (if m.round == 1 {
                Seq::empty()
            } else {
                "es"@
            }) + "!\n"@,
            outcome: Some(Outcome::Solved(m.round)),
        }
    } else {
        match parse_outcome(guess, upper) {
            Err(e) => keep(
                GameModel { pending: None, ..m },
                "Error: "@ + e + "\n"@ + round_header(m.round, m.candidates) + guess_prompt(),
            ),
            Ok(parts) => {
                let left = m.candidates.filter(fits_parts(parts.0, parts.1));
                if left.len() == 0 {
                    StepModel {
                        next: GameModel { candidates: left, round: m.round, pending: None },
                        output: "\n"@ + "No candidates remaining.\n"@
                            + "Please check that your guess and feedback are correct.\n"@,
                        outcome: Some(Outcome::NoCandidates),
                    }
                } else {
                    let head = "\n"@ + suggestion_line(
                        suggestion(left, all_words),
                        "Suggested next guess: \""@,
                    ) + "\n"@;
                    if m.round + 1 > 6 {
                        StepModel {
                            next: GameModel { candidates: left, round: m.round + 1, pending: None },
                            output: head + "Reached 6 guesses. Game over.\n"@ + "Remaining candidates: "@
                                + joined_upper(leftover(left), leftover(left).len() as int) + "\n"@,
                            outcome: Some(Outcome::GameOver(leftover(left))),
                        }
                    } else {
                        keep(
                            GameModel { candidates: left, round: m.round + 1, pending: None },
                            head + round_header(m.round + 1, left) + guess_prompt(),
                        )
                    }
                }
            },
        }
    }
}

/// One step of the game: what reading `line` (`None` at end of input) does
/// in state `m`.
#[verifier::opaque]
pub open spec fn step_model(m: GameModel, all_words: Seq<String>, line: Option<Seq<char>>) -> StepModel {
    match line {
        None => closed(m),
        Some(l) => match m.pending {
            None => if is_list_request(l) {
                keep(m, "\n"@ + candidates_text(m.candidates) + "\n"@ + "\n"@ + guess_prompt())
            } else if valid_guess(l) {
                keep(GameModel { pending: Some(lowercased(l)), ..m }, feedback_prompt())
            } else {
                keep(m, "  Please enter exactly 5 alphabetic letters.\n"@ + guess_prompt())
            },
            Some(g) => {
                let upper = uppercased(l);
                if valid_feedback(upper) {
                    feedback_step(m, all_words, g, upper)
                } else {
                    keep(m, "  Please enter exactly 5 chars using G, Y, or _.\n"@ + feedback_prompt())
                }
            },
        },
    }
}


/// A line of input as the contracts see it.
pub open spec fn line_view(line: Option<String>) -> Option<Seq<char>> {
    match line {
        Some(l) => Some(l@),
        None => None,
    }
}

/// Whether an optional game result is the outcome of a step.
pub open spec fn result_matches(r: Option<GameResult>, o: Option<Outcome>) -> bool {
    match r {
        Some(g) => o == Some(g@),
        None => o is None,
    }
}

/// Starts a game over `all_words`: every word is a candidate, the round is
/// the first, and the banner, the dictionary size, the first suggestion and
/// the first round's heading and prompt are to be printed.
pub fn start_game(all_words: &[String]) -> (r: (GameState, String))
    requires
        min_five_letters(all_words@),
        total_chars(all_words@, all_words@.len() as int) <= usize::MAX,
    ensures
        r.0@ == (GameModel { candidates: all_words@, round: 1, pending: None }),
        r.1@ == opening_text(all_words@),
        game_ready(r.0@),
{
    let mut candidates: Vec<String> = Vec::new();
    let n = all_words.len();
    let mut i: usize = 0;
    while i < n
        invariant
            0 <= i <= n,
            n == all_words@.len(),
            candidates@ == all_words@.take(i as int),
        decreases n - i,
    {
        candidates.push(all_words[i].clone());
        proof {
            assert(candidates@ =~= all_words@.take(i + 1));
        }
        i += 1;
    }
    proof {
        assert(candidates@ =~= all_words@);
    }
    let mut out = String::from_str(BANNER);
    out.append("Dictionary loaded: ");
    let count = usize_to_decimal(all_words.len());
    out.append(count.as_str());
    out.append(" five-letter words\n");
    out.append("\n");
    let first = suggest_next(candidates.as_slice(), all_words);
    append_suggestion(&mut out, &first, "Suggested first guess: \"");
    out.append("\n");
    append_round_header(&mut out, 1, &candidates);
    out.append("Enter your guess (5 letters, or 'list'): ");
    (GameState { candidates, round: 1, pending: None }, out)
}

/// Whether every character is an ASCII letter.
fn all_ascii_letters(line: &Vec<char>) -> (r: bool)
    ensures
        r == forall|i: int| 0 <= i < line@.len() ==> spec_is_ascii_alphabetic(#[trigger] line@[i]),
{
    let mut i: usize = 0;
    while i < line.len()
        invariant
            0 <= i <= line@.len(),
            forall|j: int| 0 <= j < i ==> spec_is_ascii_alphabetic(#[trigger] line@[j]),
        decreases line@.len() - i,
    {
        if !is_ascii_alphabetic(line[i]) {
            return false;
        }
        i += 1;
    }
    true
}

/// Whether every character is `G`, `Y` or `_`.
fn all_feedback_chars(line: &Vec<char>) -> (r: bool)
    ensures
        r == forall|i: int| 0 <= i < line@.len() ==> {
            let c = #[trigger] line@[i];
            c == 'G' || c == 'Y' || c == '_'
        },
{
    let mut i: usize = 0;
    while i < line.len()
        invariant
            0 <= i <= line@.len(),
            forall|j: int| 0 <= j < i ==> {
                let c = #[trigger] line@[j];
                c == 'G' || c == 'Y' || c == '_'
            },
        decreases line@.len() - i,
    {
        let c = line[i];
        if !(c == 'G' || c == 'Y' || c == '_') {
            return false;
        }
        i += 1;
    }
    true
}

/// Whether the characters spell `GGGGG`.
fn all_green(line: &Vec<char>) -> (r: bool)
    ensures
        r == (line@ == "GGGGG"@),
{
    proof {
        reveal_strlit("GGGGG");
    }
    if line.len() != 5 {
        return false;
    }
    let mut i: usize = 0;
    while i < 5
        invariant
            0 <= i <= 5,
            line@.len() == 5,
            forall|j: int| 0 <= j < i ==> line@[j] == 'G',
        decreases 5 - i,
    {
        if line[i] != 'G' {
            proof {
                reveal_strlit("GGGGG");
                assert(line@[i as int] != "GGGGG"@[i as int]);
            }
            return false;
        }
        i += 1;
    }
    proof {
        assert(line@ =~= "GGGGG"@);
    }
    true
}


/// Feeds one line of input (`None` at end of input) to the game: updates
/// the state, and returns what to print and, when the game ends, how.
pub fn step(state: &mut GameState, all_words: &[String], line: Option<String>) -> (r: (
    String,
    Option<GameResult>,
))
    requires
        game_ready(old(state)@),
    ensures
        ({
            let s = step_model(old(state)@, all_words@, line_view(line));
            &&& final(state)@ == s.next
            &&& r.0@ == s.output
            &&& result_matches(r.1, s.outcome)
            &&& s.outcome is None ==> game_ready(final(state)@)
        }),
{
    reveal(step_model);
    let line = match line {
        Some(l) => l,
        None => {
            return (String::new(), Some(GameResult::InputClosed));
        },
    };
    if state.pending.is_none() {
        if is_list_command(line.as_str()) {
            let mut out = String::from_str("\n");
            let listing = format_candidates(state.candidates.as_slice());
            out.append(listing.as_str());
            out.append("\n");
            out.append("\n");
            out.append("Enter your guess (5 letters, or 'list'): ");
            return (out, None);
        }
        let chars = chars_of(line.as_str());
        if line.as_str().len() == 5 && all_ascii_letters(&chars) {
            state.pending = Some(to_lowercase(line.as_str()));
            return (String::from_str("Enter feedback (G/Y/_ for each letter): "), None);
        }
        let mut out = String::from_str("  Please enter exactly 5 alphabetic letters.\n");
        out.append("Enter your guess (5 letters, or 'list'): ");
        return (out, None);
    }
    let guess: String = match &state.pending {
        Some(g) => g.clone(),
        None => String::new(),
    };
    let upper = to_uppercase(line.as_str());
    let up_chars = chars_of(upper.as_str());
    if !(upper.as_str().len() == 5 && all_feedback_chars(&up_chars)) {
        let mut out = String::from_str("  Please enter exactly 5 chars using G, Y, or _.\n");
        out.append("Enter feedback (G/Y/_ for each letter): ");
        return (out, None);
    }
    if all_green(&up_chars) {
        let mut out = String::from_str("\n");
        out.append("Congratulations! Solved in ");
        let r = usize_to_decimal(state.round);
        out.append(r.as_str());
        out.append(" guess");
        if state.round != 1 {
            out.append("es");
        }
        out.append("!\n");
        return (out, Some(GameResult::Solved { round: state.round }));
    }
    match Clue::parse(guess.as_str(), upper.as_str()) {
        Err(e) => {
            state.pending = None;
            let mut out = String::from_str("Error: ");
            out.append(e.as_str());
            out.append("\n");
            append_round_header(&mut out, state.round, &state.candidates);
            out.append("Enter your guess (5 letters, or 'list'): ");
            (out, None)
        },
        Ok(clue) => {
            let ghost cw = clue.word@;
            let ghost hs = clue.hints@;
            let mut clues: Vec<Clue> = Vec::new();
            clues.push(clue);
            proof {
                lemma_min_five_checkable(state.candidates@, clues@);
            }
            let left = filter_candidates(state.candidates.as_slice(), clues.as_slice());
            proof {
                assert(survives(clues@) =~= fits_parts(cw, hs)) by {
                    assert forall|w: String| #[trigger] survives(clues@)(w) == fits_parts(cw, hs)(w) by {
                        if word_fits_clue(w@, cw, hs) {
                            assert forall|i: int| 0 <= i < clues@.len() implies #[trigger] word_fits_clue(
                                w@,
                                clues@[i].word@,
                                clues@[i].hints@,
                            ) by {
                                assert(i == 0);
                            }
                        }
                        if fits_all_clues(w@, clues@) {
                            assert(word_fits_clue(w@, clues@[0].word@, clues@[0].hints@));
                        }
                    }
                }
                lemma_filter_shrinks(state.candidates@, fits_parts(cw, hs));
            }
            state.pending = None;
            let mut out = String::from_str("\n");
            if left.len() == 0 {
                state.candidates = left;
                out.append("No candidates remaining.\n");
                out.append("Please check that your guess and feedback are correct.\n");
                return (out, Some(GameResult::NoCandidates));
            }
            let next = suggest_next(left.as_slice(), all_words);
            append_suggestion(&mut out, &next, "Suggested next guess: \"");
            out.append("\n");
            state.round = state.round + 1;
            if state.round > 6 {
                out.append("Reached 6 guesses. Game over.\n");
                let mut remaining: Vec<String> = Vec::new();
                let mut i: usize = 0;
                while i < left.len() && i < 5
                    invariant
                        0 <= i <= 5,
                        i <= left@.len(),
                        remaining@ == left@.take(i as int),
                    decreases 5 - i,
                {
                    remaining.push(left[i].clone());
                    proof {
                        assert(remaining@ =~= left@.take(i + 1));
                    }
                    i += 1;
                }
                proof {
                    assert(remaining@ =~= leftover(left@));
                }
                out.append("Remaining candidates: ");
                append_joined_upper(&mut out, &remaining);
                out.append("\n");
                state.candidates = left;
                return (out, Some(GameResult::GameOver { remaining }));
            }
            append_round_header(&mut out, state.round, &left);
            out.append("Enter your guess (5 letters, or 'list'): ");
            state.candidates = left;
            (out, None)
        },
    }
}


/// The lines a player types in `input`, as a line reader sees them: the
/// pieces between `\n` characters (an empty piece after the last `\n` is
/// the end of input, not a line), each trimmed.
pub open spec fn input_lines(input: Seq<char>) -> Seq<Seq<char>> {
    let pieces = text_pieces(input);
    let read = if pieces.last().len() == 0 {
        pieces.drop_last()
    } else {
        pieces
    };
    read.map_values(|p: Seq<char>| trimmed(p))
}

/// How a game in state `m` goes on from line `i` of `lines`: how it ends and
/// what it prints until then.
pub open spec fn play(m: GameModel, all_words: Seq<String>, lines: Seq<Seq<char>>, i: int) -> (
    Outcome,
    Seq<char>,
)
    decreases lines.len() - i,
{
    if i >= lines.len() {
        (Outcome::InputClosed, Seq::empty())
    } else {
        let s = step_model(m, all_words, Some(lines[i]));
        match s.outcome {
            Some(o) => (o, s.output),
            None => {
                let rest = play(s.next, all_words, lines, i + 1);
                (rest.0, s.output + rest.1)
            },
        }
    }
}

/// Plays a whole game over `all_words` with the typed `input`: returns how
/// it ended and everything it printed.
pub fn run_game(all_words: &[String], input: &str) -> (r: (GameResult, String))
    requires
        min_five_letters(all_words@),
        total_chars(all_words@, all_words@.len() as int) <= usize::MAX,
    ensures
        ({
            let rest = play(
                GameModel { candidates: all_words@, round: 1, pending: None },
                all_words@,
                input_lines(input@),
                0,
            );
            &&& r.0@ == rest.0
            &&& r.1@ == opening_text(all_words@) + rest.1
        }),
{
    let pieces = split_pieces(input);
    let ghost lines = input_lines(input@);
    let mut count = pieces.len();
    if pieces[count - 1].as_str().is_empty() {
        count = count - 1;
    }
    proof {
        let ps = text_pieces(input@);
        assert(pieces@.map_values(|p: String| p@) == ps);
        assert(lines.len() == count);
        assert forall|j: int| 0 <= j < count implies lines[j] == trimmed(#[trigger] pieces@[j]@) by {
            assert(ps[j] == pieces@[j]@);
        }
    }
    let (mut state, mut out) = start_game(all_words);
    let ghost start = state@;
    let mut i: usize = 0;
    while i < count
        invariant
            0 <= i <= count,
            count <= pieces@.len(),
            lines.len() == count,
            forall|j: int| 0 <= j < count ==> lines[j] == trimmed(#[trigger] pieces@[j]@),
            game_ready(state@),
            start == (GameModel { candidates: all_words@, round: 1, pending: None }),
            lines == input_lines(input@),
            play(start, all_words@, lines, 0).0 == play(state@, all_words@, lines, i as int).0,
            opening_text(all_words@) + play(start, all_words@, lines, 0).1 == out@ + play(
                state@,
                all_words@,
                lines,
                i as int,
            ).1,
        decreases count - i,
    {
        let line = trim(pieces[i].as_str());
        let ghost before = state@;
        let ghost before_out = out@;
        let owned = String::from_str(line);
        proof {
            assert(line_view(Some(owned)) == Some(lines[i as int]));
        }
        let (printed, result) = step(&mut state, all_words, Some(owned));
        out.append(printed.as_str());
        proof {
            let s = step_model(before, all_words@, Some(lines[i as int]));
            if s.outcome is None {
                let rest = play(s.next, all_words@, lines, i + 1);
                assert(play(before, all_words@, lines, i as int) == (rest.0, s.output + rest.1));
                assert(before_out + (s.output + rest.1) =~= out@ + rest.1);
            } else {
                assert(play(before, all_words@, lines, i as int) == (s.outcome->0, s.output));
                assert(out@ =~= before_out + s.output);
                assert(out@ + Seq::<char>::empty() =~= out@);
            }
        }
        match result {
            Some(r) => {
                proof {
                    let s = step_model(before, all_words@, Some(lines[i as int]));
                    assert(s.outcome == Some(r@));
                    assert(play(start, all_words@, lines, 0).0 == r@);
                    assert(opening_text(all_words@) + play(start, all_words@, lines, 0).1 == out@);
                }
                return (r, out);
            },
            None => {},
        }
        i += 1;
    }
    let ghost before_out = out@;
    let (printed, result) = step(&mut state, all_words, None);
    out.append(printed.as_str());
    proof {
        reveal(step_model);
        assert(out@ =~= before_out);
    }
    match result {
        Some(r) => (r, out),
        None => (GameResult::InputClosed, out),
    }
}


/// A step never brings back a word: every candidate after it was a candidate
/// before, the round never goes back and grows by at most one, and a game
/// that goes on is still ready.
pub proof fn lemma_step_narrows(m: GameModel, all_words: Seq<String>, line: Option<Seq<char>>)
    requires
        game_ready(m),
    ensures
        ({
            let s = step_model(m, all_words, line);
            &&& forall|i: int| 0 <= i < s.next.candidates.len() ==> m.candidates.contains(
                #[trigger] s.next.candidates[i],
            )
            &&& m.round <= s.next.round <= m.round + 1
            &&& s.outcome is None ==> game_ready(s.next)
            &&& s.outcome matches Some(Outcome::Solved(r)) ==> 1 <= r <= 6
            &&& s.outcome matches Some(Outcome::GameOver(rest)) ==> {
                &&& m.round == 6
                &&& 1 <= rest.len() <= 5
                &&& rest == s.next.candidates.take(rest.len() as int)
            }
        }),
{
    reveal(step_model);
    let s = step_model(m, all_words, line);
    if let Some(l) = line {
        if let Some(g) = m.pending {
            let upper = uppercased(l);
            if valid_feedback(upper) && upper != "GGGGG"@ {
                if let Ok(parts) = parse_outcome(g, upper) {
                    lemma_filter_within(m.candidates, fits_parts(parts.0, parts.1));
                    lemma_filter_shrinks(m.candidates, fits_parts(parts.0, parts.1));
                }
            }
        }
    }
    assert forall|i: int| 0 <= i < s.next.candidates.len() implies m.candidates.contains(
        #[trigger] s.next.candidates[i],
    ) by {
        if s.next.candidates != m.candidates {
        } else {
            assert(m.candidates[i] == s.next.candidates[i]);
        }
    }
}

/// Truthful feedback never loses the hidden word: when the clue read from
/// the feedback is the one Wordle gives for the guess against `answer`, and
/// `answer` is a candidate, the game does not run out of candidates and, if
/// it goes on, `answer` is still a candidate.
pub proof fn lemma_truthful_feedback_keeps_answer(
    m: GameModel,
    all_words: Seq<String>,
    line: Seq<char>,
    answer: String,
)
    requires
        answer@.len() == 5,
        m.candidates.contains(answer),
        m.pending is Some,
        ({
            let upper = uppercased(line);
            &&& valid_feedback(upper)
            &&& parse_outcome(m.pending->0, upper) matches Ok(parts) && parts.1 == wordle_feedback(
                parts.0,
                answer@,
            )
        }),
    ensures
        ({
            let s = step_model(m, all_words, Some(line));
            &&& !(s.outcome == Some(Outcome::NoCandidates))
            &&& s.outcome is None ==> s.next.candidates.contains(answer)
        }),
{
    reveal(step_model);
    let upper = uppercased(line);
    let parts = parse_outcome(m.pending->0, upper)->Ok_0;
    crate::feedback::lemma_answer_fits_its_feedback(parts.0, answer@);
    broadcast use Seq::lemma_filter_contains;
    let j = choose|j: int| 0 <= j < m.candidates.len() && m.candidates[j] == answer;
    assert(fits_parts(parts.0, parts.1)(m.candidates[j]));
    assert(m.candidates.filter(fits_parts(parts.0, parts.1)).contains(answer));
}


/// Consistency with every clue of a history of clues.
pub open spec fn fits_history(history: Seq<(Seq<char>, Seq<Hint>)>) -> spec_fn(String) -> bool {
    |w: String|
        forall|j: int| 0 <= j < history.len() ==> #[trigger] word_fits_clue(w@, history[j].0, history[j].1)
}

/// The clue a step applies to the candidates: the pending guess read
/// together with valid feedback other than all green, when it parses.
pub open spec fn step_clue(m: GameModel, line: Option<Seq<char>>) -> Option<(Seq<char>, Seq<Hint>)> {
    match (line, m.pending) {
        (Some(l), Some(g)) => {
            let upper = uppercased(l);
            if valid_feedback(upper) && upper != "GGGGG"@ {
                match parse_outcome(g, upper) {
                    Ok(parts) => Some(parts),
                    Err(_) => None,
                }
            } else {
                None
            }
        },
        _ => None,
    }
}

/// What a step does to the candidates and the round: without a clue they
/// stay; with a clue the candidates become those that fit it, the game ends
/// without candidates exactly when none fit, ends in game over after the
/// sixth round with the first five of them, and otherwise moves to the next
/// round. The game is solved only without a clue, in the current round.
pub proof fn lemma_step_applies_clue(m: GameModel, all_words: Seq<String>, line: Option<Seq<char>>)
    requires
        game_ready(m),
    ensures
        ({
            let s = step_model(m, all_words, line);
            match step_clue(m, line) {
                None => {
                    &&& s.next.candidates == m.candidates
                    &&& s.next.round == m.round
                    &&& s.outcome is None || s.outcome == Some(Outcome::InputClosed) || s.outcome
                        == Some(Outcome::Solved(m.round))
                },
                Some(c) => {
                    let left = m.candidates.filter(fits_parts(c.0, c.1));
                    &&& s.next.candidates == left
                    &&& (s.outcome == Some(Outcome::NoCandidates) <==> left.len() == 0)
                    &&& left.len() > 0 && m.round == 6 ==> s.outcome == Some(
                        Outcome::GameOver(leftover(left)),
                    )
                    &&& left.len() > 0 && m.round < 6 ==> s.outcome is None && s.next.round == m.round
                        + 1
                },
            }
        }),
{
    reveal(step_model);
}

/// Filtering candidates that fit a history by one more clue gives the words
/// that fit the longer history.
pub proof fn lemma_history_grows(all_words: Seq<String>, history: Seq<(Seq<char>, Seq<Hint>)>, c: (Seq<char>, Seq<Hint>))
    ensures
        all_words.filter(fits_history(history)).filter(fits_parts(c.0, c.1)) == all_words.filter(
            fits_history(history.push(c)),
        ),
{
    let longer = history.push(c);
    assert forall|w: String| #[trigger] fits_history(longer)(w) == (fits_history(history)(w) && fits_parts(c.0, c.1)(w)) by {
        if fits_history(history)(w) && fits_parts(c.0, c.1)(w) {
            assert forall|j: int| 0 <= j < longer.len() implies #[trigger] word_fits_clue(w@, longer[j].0, longer[j].1) by {
                if j < history.len() {
                    assert(longer[j] == history[j]);
                }
            }
        }
        if fits_history(longer)(w) {
            assert forall|j: int| 0 <= j < history.len() implies #[trigger] word_fits_clue(w@, history[j].0, history[j].1) by {
                assert(longer[j] == history[j]);
            }
            assert(word_fits_clue(w@, longer[history.len() as int].0, longer[history.len() as int].1));
        }
    }
    lemma_filter_twice(all_words, fits_history(history), fits_parts(c.0, c.1), fits_history(longer));
}

/// The candidates of a game are the dictionary words that fit a history of
/// clues, one clue per round completed.
pub open spec fn consistent_with(m: GameModel, all_words: Seq<String>, history: Seq<(Seq<char>, Seq<Hint>)>) -> bool {
    &&& m.candidates == all_words.filter(fits_history(history))
    &&& history.len() + 1 == m.round
}

/// After each of the first `n` clues of `history`, some dictionary word
/// still fit all the clues so far.
pub open spec fn prefixes_nonempty(all_words: Seq<String>, history: Seq<(Seq<char>, Seq<Hint>)>, n: int) -> bool {
    forall|k: int|
        1 <= k <= n ==> #[trigger] all_words.filter(fits_history(history.take(k))).len() > 0
}

proof fn lemma_prefixes_extend(
    all_words: Seq<String>,
    history: Seq<(Seq<char>, Seq<Hint>)>,
    c: (Seq<char>, Seq<Hint>),
)
    requires
        prefixes_nonempty(all_words, history, history.len() as int),
    ensures
        prefixes_nonempty(all_words, history.push(c), history.len() as int),
        all_words.filter(fits_history(history.push(c))).len() > 0 ==> prefixes_nonempty(
            all_words,
            history.push(c),
            history.len() + 1 as int,
        ),
{
    let longer = history.push(c);
    assert forall|k: int| 1 <= k <= history.len() implies #[trigger] all_words.filter(fits_history(longer.take(k))).len() > 0 by {
        assert(longer.take(k) =~= history.take(k));
    }
    assert(longer.take(longer.len() as int) =~= longer);
}

/// How a game goes on, from a state whose candidates fit a history with
/// candidates left after each of its clues:
/// - it is solved only in a round from the current one to the sixth, after
///   as many clues as rounds before it, each of which left candidates;
/// - it runs out of candidates only at a clue of a history of at most six,
///   after earlier clues that each left candidates;
/// - game over comes after six clues that each left candidates, with the
///   first five words that fit them all.
pub proof fn lemma_play_outcomes(
    m: GameModel,
    all_words: Seq<String>,
    lines: Seq<Seq<char>>,
    i: int,
    history: Seq<(Seq<char>, Seq<Hint>)>,
)
    requires
        game_ready(m),
        consistent_with(m, all_words, history),
        prefixes_nonempty(all_words, history, history.len() as int),
    ensures
        match play(m, all_words, lines, i).0 {
            Outcome::Solved(r) => m.round <= r <= 6 && exists|h: Seq<(Seq<char>, Seq<Hint>)>|
                h.len() + 1 == r && #[trigger] prefixes_nonempty(all_words, h, h.len() as int),
            Outcome::NoCandidates => exists|h: Seq<(Seq<char>, Seq<Hint>)>|
                history.len() < h.len() <= 6 && #[trigger] all_words.filter(fits_history(h)).len() == 0
                    && prefixes_nonempty(all_words, h, h.len() - 1),
            Outcome::GameOver(rest) => exists|h: Seq<(Seq<char>, Seq<Hint>)>|
                h.len() == 6 && #[trigger] prefixes_nonempty(all_words, h, 6) && rest == leftover(
                    all_words.filter(fits_history(h)),
                ),
            Outcome::InputClosed => true,
        },
    decreases lines.len() - i,
{
    if i < lines.len() {
        let line = Some(lines[i]);
        let s = step_model(m, all_words, line);
        lemma_step_applies_clue(m, all_words, line);
        lemma_step_narrows(m, all_words, line);
        match step_clue(m, line) {
            None => {
                if s.outcome is None {
                    lemma_play_outcomes(s.next, all_words, lines, i + 1, history);
                } else if s.outcome == Some(Outcome::Solved(m.round)) {
                    assert(prefixes_nonempty(all_words, history, history.len() as int));
                }
            },
            Some(c) => {
                let longer = history.push(c);
                lemma_history_grows(all_words, history, c);
                lemma_prefixes_extend(all_words, history, c);
                assert(longer.len() - 1 == history.len());
                if s.outcome is None {
                    lemma_play_outcomes(s.next, all_words, lines, i + 1, longer);
                    let rest = play(s.next, all_words, lines, i + 1).0;
                    if let Outcome::NoCandidates = rest {
                        let h = choose|h: Seq<(Seq<char>, Seq<Hint>)>|
                            longer.len() < h.len() <= 6 && #[trigger] all_words.filter(fits_history(h)).len() == 0
                                && prefixes_nonempty(all_words, h, h.len() - 1);
                        assert(history.len() < h.len());
                    }
                } else if s.outcome == Some(Outcome::NoCandidates) {
                    assert(all_words.filter(fits_history(longer)).len() == 0);
                } else {
                    assert(all_words.filter(fits_history(longer)).len() > 0);
                    assert(prefixes_nonempty(all_words, longer, 6));
                }
            },
        }
    }
}

/// Over a whole game from the start:
/// - it is solved only in rounds one to six, after as many clues as rounds
///   before it, each of which left candidates;
/// - it runs out of candidates only at the last clue of one to six, each
///   earlier clue having left candidates;
/// - game over comes after six clues that each left candidates, and reports
///   the first five dictionary words that fit them all.
pub proof fn lemma_game_outcomes(all_words: Seq<String>, input: Seq<char>)
    requires
        min_five_letters(all_words),
        total_chars(all_words, all_words.len() as int) <= usize::MAX,
    ensures
        match play(
            GameModel { candidates: all_words, round: 1, pending: None },
            all_words,
            input_lines(input),
            0,
        ).0 {
            Outcome::Solved(r) => 1 <= r <= 6 && exists|h: Seq<(Seq<char>, Seq<Hint>)>|
                h.len() + 1 == r && #[trigger] prefixes_nonempty(all_words, h, h.len() as int),
            Outcome::NoCandidates => exists|h: Seq<(Seq<char>, Seq<Hint>)>|
                1 <= h.len() <= 6 && #[trigger] all_words.filter(fits_history(h)).len() == 0
                    && prefixes_nonempty(all_words, h, h.len() - 1),
            Outcome::GameOver(rest) => exists|h: Seq<(Seq<char>, Seq<Hint>)>|
                h.len() == 6 && #[trigger] prefixes_nonempty(all_words, h, 6) && rest == leftover(
                    all_words.filter(fits_history(h)),
                ),
            Outcome::InputClosed => true,
        },
{
    let empty = Seq::<(Seq<char>, Seq<Hint>)>::empty();
    lemma_no_history(all_words);
    lemma_play_outcomes(
        GameModel { candidates: all_words, round: 1, pending: None },
        all_words,
        input_lines(input),
        0,
        empty,
    );
}

proof fn lemma_no_history(words: Seq<String>)
    ensures
        words.filter(fits_history(Seq::empty())) == words,
    decreases words.len(),
{
    reveal_with_fuel(Seq::<_>::filter, 1);
    if words.len() > 0 {
        lemma_no_history(words.drop_last());
        assert(fits_history(Seq::empty())(words.last()));
        assert(words.drop_last().push(words.last()) =~= words);
    }
}


/// After a clue that leaves candidates, the suggestion printed is the one
/// for the candidates that remain, not those before the clue; with six or
/// fewer left it is one of them.
pub proof fn lemma_step_suggests_from_remaining(m: GameModel, all_words: Seq<String>, line: Option<Seq<char>>)
    requires
        game_ready(m),
        step_clue(m, line) is Some,
        step_model(m, all_words, line).next.candidates.len() > 0,
    ensures
        ({
            let s = step_model(m, all_words, line);
            let clue = step_clue(m, line)->0;
            let head = "\n"@ + suggestion_line(
                suggestion(s.next.candidates, all_words),
                "Suggested next guess: \""@,
            ) + "\n"@;
            &&& s.next.candidates == m.candidates.filter(fits_parts(clue.0, clue.1))
            &&& head.len() <= s.output.len()
            &&& s.output.subrange(0, head.len() as int) == head
            &&& s.next.candidates.len() <= 6 ==> (suggestion(s.next.candidates, all_words) matches Some(
                w,
            ) && s.next.candidates.contains(w))
        }),
{
    reveal(step_model);
    let s = step_model(m, all_words, line);
    let head = "\n"@ + suggestion_line(suggestion(s.next.candidates, all_words), "Suggested next guess: \""@)
        + "\n"@;
    let rest = s.output.subrange(head.len() as int, s.output.len() as int);
    if m.round + 1 > 6 {
        assert(s.output =~= head + ("Reached 6 guesses. Game over.\n"@ + "Remaining candidates: "@
            + joined_upper(leftover(s.next.candidates), leftover(s.next.candidates).len() as int)
            + "\n"@));
    } else {
        assert(s.output =~= head + (round_header(m.round + 1, s.next.candidates) + guess_prompt()));
    }
    assert(s.output.subrange(0, head.len() as int) =~= head);
    if s.next.candidates.len() <= 6 {
        lemma_small_pool_suggests_candidate(s.next.candidates, all_words);
    }
}

/// A list request shows the candidates that remain now, and changes nothing.
pub proof fn lemma_list_shows_remaining(m: GameModel, all_words: Seq<String>, l: Seq<char>)
    requires
        m.pending is None,
        ascii_lower_all(l) == "list"@ || l == "?"@,
    ensures
        ({
            let s = step_model(m, all_words, Some(l));
            &&& s.next == m
            &&& s.outcome is None
            &&& s.output == "\n"@ + candidates_text(m.candidates) + "\n"@ + "\n"@ + guess_prompt()
            &&& s.output.subrange(0, (23 + decimal(m.candidates.len()).len()) as int) == "\n"@
                + "Remaining candidates ("@ + decimal(m.candidates.len())
        }),
{
    reveal(step_model);
    reveal_strlit("Remaining candidates (");
    reveal_strlit("\n");
    let s = step_model(m, all_words, Some(l));
    let lead = "\n"@ + "Remaining candidates ("@ + decimal(m.candidates.len());
    assert(s.output =~= lead + ("):"@ + crate::solver::candidate_lines(
        m.candidates,
        m.candidates.len() as int,
    ) + "\n"@ + "\n"@ + guess_prompt()));
    assert(lead.len() == 23 + decimal(m.candidates.len()).len());
    assert(s.output.subrange(0, lead.len() as int) =~= lead);
}

/// Every line typed is read: each piece of the input between newlines is
/// read, trimmed, in order; only an empty piece after the last newline is
/// not a line.
pub proof fn lemma_every_typed_line_is_read(input: Seq<char>)
    ensures
        ({
            let p = text_pieces(input);
            let lines = input_lines(input);
            &&& p.len() - 1 <= lines.len() <= p.len()
            &&& forall|j: int| 0 <= j < lines.len() ==> #[trigger] lines[j] == trimmed(p[j])
            &&& forall|j: int| 0 <= j < p.len() && (#[trigger] p[j]).len() > 0 ==> j < lines.len()
        }),
{
}

/// A line ended by a newline is read whole, ahead of what follows: the lines
/// of `a`, a newline and `b` are the pieces of `a`, each trimmed, and then
/// the lines of `b`.
pub proof fn lemma_input_lines_of_joined(a: Seq<char>, b: Seq<char>)
    ensures
        input_lines(a + seq!['\n'] + b) == text_pieces(a).map_values(|p: Seq<char>| trimmed(p)) + input_lines(b),
{
    lemma_pieces_of_joined(a, b);
    let pa = text_pieces(a);
    let pb = text_pieces(b);
    let trim_each = |p: Seq<char>| trimmed(p);
    let read_b = if pb.last().len() == 0 { pb.drop_last() } else { pb };
    assert((pa + pb).last() == pb.last());
    if pb.last().len() == 0 {
        assert((pa + pb).drop_last() =~= pa + pb.drop_last());
    }
    assert((pa + read_b).map_values(trim_each) =~= pa.map_values(trim_each) + read_b.map_values(trim_each));
}

/// Input without a newline is one line when it is not empty, though no
/// newline ends it, and no line when it is empty.
pub proof fn lemma_input_lines_of_line(s: Seq<char>)
    requires
        !s.contains('\n'),
    ensures
        input_lines(s) == if s.len() == 0 {
            Seq::<Seq<char>>::empty()
        } else {
            seq![trimmed(s)]
        },
{
    lemma_pieces_of_line(s);
    assert(seq![s].drop_last() =~= Seq::<Seq<char>>::empty());
    assert(seq![s].map_values(|p: Seq<char>| trimmed(p)) =~= seq![trimmed(s)]);
}

proof fn lemma_ascii_lower_char(c: char)
    requires
        '\0' <= c <= '\u{7f}',
    ensures
        '\0' <= ascii_lower(c) <= '\u{7f}',
        ascii_lower(ascii_lower(c)) == ascii_lower(c),
        spec_is_ascii_alphabetic(ascii_lower(c)) == spec_is_ascii_alphabetic(c),
        ascii_lower(c) == '?' <==> c == '?',
{
}

/// A guess of five ASCII letters, in either case, is accepted: it becomes the
/// pending guess, lowercased, and the feedback prompt follows.
pub proof fn lemma_guess_accepted(m: GameModel, all_words: Seq<String>, l: Seq<char>)
    requires
        m.pending is None,
        utf8_len(l) == 5,
        forall|i: int| 0 <= i < l.len() ==> spec_is_ascii_alphabetic(#[trigger] l[i]),
    ensures
        ({
            let s = step_model(m, all_words, Some(l));
            &&& s.outcome is None
            &&& s.next.candidates == m.candidates
            &&& s.next.round == m.round
            &&& s.next.pending == Some(ascii_lower_all(l))
            &&& s.output == feedback_prompt()
        }),
{
    reveal(step_model);
    reveal_strlit("list");
    reveal_strlit("?");
    assert(is_ascii_chars(l)) by {
        assert forall|i: int| 0 <= i < l.len() implies '\0' <= #[trigger] l[i] <= '\u{7f}' by {
            assert(spec_is_ascii_alphabetic(l[i]));
        }
    }
    vstd::utf8::is_ascii_chars_encode_utf8(l);
    assert(l.len() != 4 && l.len() != 1);
    assert(ascii_lower_all(l).len() != "list"@.len());
    assert(l.len() != "?"@.len());
}

/// Case does not matter to a guess: a line of ASCII text is read as its
/// lowercase form would be.
pub proof fn lemma_guess_case_insensitive(m: GameModel, all_words: Seq<String>, l: Seq<char>)
    requires
        m.pending is None,
        is_ascii_chars(l),
    ensures
        step_model(m, all_words, Some(l)) == step_model(m, all_words, Some(ascii_lower_all(l))),
{
    reveal(step_model);
    let low = ascii_lower_all(l);
    assert forall|i: int| 0 <= i < l.len() implies {
        &&& '\0' <= #[trigger] low[i] <= '\u{7f}'
        &&& ascii_lower(low[i]) == low[i]
        &&& spec_is_ascii_alphabetic(low[i]) == spec_is_ascii_alphabetic(l[i])
        &&& (low[i] == '?' <==> l[i] == '?')
    } by {
        lemma_ascii_lower_char(l[i]);
    }
    assert(is_ascii_chars(low));
    assert(ascii_lower_all(low) =~= low);
    vstd::utf8::is_ascii_chars_encode_utf8(l);
    vstd::utf8::is_ascii_chars_encode_utf8(low);
    assert(utf8_len(l) == utf8_len(low));
    reveal_strlit("?");
    if l == "?"@ {
        assert(low =~= "?"@);
    }
    if low == "?"@ {
        assert(l =~= "?"@);
    }
    if valid_guess(l) {
        assert forall|i: int| 0 <= i < low.len() implies spec_is_ascii_alphabetic(#[trigger] low[i]) by {
            assert(spec_is_ascii_alphabetic(l[i]));
        }
    }
    if valid_guess(low) {
        assert forall|i: int| 0 <= i < l.len() implies spec_is_ascii_alphabetic(#[trigger] l[i]) by {
            assert(spec_is_ascii_alphabetic(low[i]));
        }
    }
}

} // verus!
