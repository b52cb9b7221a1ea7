use wordle_solver::game::{run_game, GameResult};
use wordle_solver::solver::{format_candidates, is_list_command};

fn words() -> Vec<String> {
    vec![
        "apple".to_string(),
        "grape".to_string(),
        "crane".to_string(),
        "stone".to_string(),
        "stove".to_string(),
    ]
}

fn run(words: &[String], input: &str) -> (GameResult, String) {
    run_game(words, input)
}

#[test]
fn test_game_solved_round_1() {
    let words = words();
    let input = "crane\nGGGGG\n";
    let (result, output) = run(&words, input);
    assert_eq!(result, GameResult::Solved { round: 1 });
    assert!(output.contains("Solved in 1 guess!"));
}

#[test]
fn test_game_solved_round_2() {
    let words = vec!["abcde".to_string(), "fghij".to_string()];
    let input = "abcde\n_____\nfghij\nGGGGG\n";
    let (result, output) = run(&words, input);
    assert_eq!(result, GameResult::Solved { round: 2 });
    assert!(output.contains("Solved in 2 guesses!"));
}

#[test]
fn test_game_no_candidates() {
    let words = vec!["apple".to_string()];
    let input = "apple\n_____\n";
    let (result, output) = run(&words, input);
    assert_eq!(result, GameResult::NoCandidates);
    assert!(output.contains("No candidates remaining"));
}

#[test]
fn test_game_input_closed_at_guess() {
    let words = words();
    let input = "";
    let (result, _) = run(&words, input);
    assert_eq!(result, GameResult::InputClosed);
}

#[test]
fn test_game_input_closed_at_feedback() {
    let words = words();
    let input = "crane\n";
    let (result, _) = run(&words, input);
    assert_eq!(result, GameResult::InputClosed);
}

#[test]
fn test_game_invalid_guess_retry() {
    let words = words();
    let input = "hi\n12345\ncrane\nGGGGG\n";
    let (result, output) = run(&words, input);
    assert_eq!(result, GameResult::Solved { round: 1 });
    assert!(output.contains("Please enter exactly 5 alphabetic letters"));
}

#[test]
fn test_game_invalid_feedback_retry() {
    let words = words();
    let input = "crane\nXXXXX\nGGGGG\n";
    let (result, output) = run(&words, input);
    assert_eq!(result, GameResult::Solved { round: 1 });
    assert!(output.contains("Please enter exactly 5 chars using G, Y, or _"));
}

#[test]
fn test_game_list_command() {
    let words = words();
    let input = "list\ncrane\nGGGGG\n";
    let (result, output) = run(&words, input);
    assert_eq!(result, GameResult::Solved { round: 1 });
    assert!(output.contains("Remaining candidates (5):"));
}

#[test]
fn test_game_banner_and_suggestion() {
    let words = words();
    let input = "crane\nGGGGG\n";
    let (_, output) = run(&words, input);
    assert!(output.contains("Wordle Solver CLI"));
    assert!(output.contains("Dictionary loaded: 5 five-letter words"));
    assert!(output.contains("Suggested first guess:"));
}

#[test]
fn test_game_over_after_6_rounds() {
    let words = vec!["abcdf".to_string(), "abcdg".to_string()];
    let mut input = String::new();
    for _ in 0..6 {
        input.push_str("abcdx\nGGGG_\n");
    }

    let (result, output) = run(&words, &input);
    assert!(matches!(result, GameResult::GameOver { .. }));
    assert!(output.contains("Reached 6 guesses. Game over."));
}

#[test]
fn test_game_shows_candidates_when_few() {
    let words = vec!["crane".to_string(), "stone".to_string()];
    let input = "crane\nGGGGG\n";
    let (_, output) = run(&words, input);
    assert!(output.contains("Candidates:"));
    assert!(output.contains("CRANE"));
    assert!(output.contains("STONE"));
}

#[test]
fn game_test_is_list_command() {
    assert!(is_list_command("list"));
    assert!(is_list_command("LIST"));
    assert!(is_list_command("List"));
    assert!(is_list_command("?"));
    assert!(!is_list_command("crane"));
    assert!(!is_list_command(""));
    assert!(!is_list_command("lists"));
    assert!(!is_list_command("lis"));
}

#[test]
fn game_test_format_candidates_empty() {
    let candidates: Vec<String> = vec![];
    let output = format_candidates(&candidates);
    assert_eq!(output, "Remaining candidates (0):");
}

#[test]
fn game_test_format_candidates_few() {
    let candidates = vec!["stone".to_string(), "stove".to_string(), "stoke".to_string()];
    let output = format_candidates(&candidates);
    assert!(output.starts_with("Remaining candidates (3):"));
    assert!(output.contains("STONE"));
    assert!(output.contains("STOVE"));
    assert!(output.contains("STOKE"));
}

#[test]
fn game_test_format_candidates_wraps_at_10() {
    let candidates: Vec<String> = (0..12)
        .map(|i| format!("word{}", (b'a' + i as u8) as char))
        .collect();
    let output = format_candidates(&candidates);
    let lines: Vec<&str> = output.lines().collect();
    assert_eq!(lines.len(), 2);
}

#[test]
fn game_over_reports_first_five_remaining() {
    let words: Vec<String> = ["abcdf", "abcdg", "abcdh", "abcdj", "abcdk", "abcdm", "abcdn"]
        .iter()
        .map(|w| w.to_string())
        .collect();
    let mut input = String::new();
    for _ in 0..6 {
        input.push_str("abcdx\nGGGG_\n");
    }
    let (result, output) = run(&words, &input);
    assert_eq!(
        result,
        GameResult::GameOver { remaining: words[..5].to_vec() }
    );
    assert!(output.ends_with(
        "Reached 6 guesses. Game over.\nRemaining candidates: ABCDF, ABCDG, ABCDH, ABCDJ, ABCDK\n"
    ));
}

#[test]
fn game_exact_transcript_of_a_short_game() {
    let words = vec!["abcde".to_string(), "fghij".to_string()];
    let (result, output) = run(&words, "abcde\n_____\nfghij\nGGGGG\n");
    assert_eq!(result, GameResult::Solved { round: 2 });
    let banner = "╔══════════════════════════════════╗\n\
║        Wordle Solver CLI         ║\n\
╚══════════════════════════════════╝\n\n\
Feedback format: 5 chars, one per letter\n\
\x20 G = Green  (correct letter, correct position)\n\
\x20 Y = Yellow (correct letter, wrong position)\n\
\x20 _ = Gray   (letter not in word)\n\n\
Commands:\n\
\x20 list  - Show all remaining candidates\n\n\
Example: guess 'crane', feedback 'G_Y__'\n\
\x20        means C=green, R=gray, A=yellow, N=gray, E=gray\n\n";
    let expected = format!(
        "{banner}Dictionary loaded: 2 five-letter words\n\n\
Suggested first guess: \"FGHIJ\"\n\n\
--- Round 1 ---\nCandidates remaining: 2\nCandidates: ABCDE, FGHIJ\n\n\
Enter your guess (5 letters, or 'list'): \
Enter feedback (G/Y/_ for each letter): \n\
Suggested next guess: \"FGHIJ\"\n\n\
--- Round 2 ---\nCandidates remaining: 1\nCandidates: FGHIJ\n\n\
Enter your guess (5 letters, or 'list'): \
Enter feedback (G/Y/_ for each letter): \n\
Congratulations! Solved in 2 guesses!\n"
    );
    assert_eq!(output, expected);
}

#[test]
fn game_truthful_feedback_never_runs_out() {
    // answer "stove"; feedback typed as Wordle gives it
    let words: Vec<String> = ["stone", "stove", "stoke", "judge", "crane"]
        .iter()
        .map(|w| w.to_string())
        .collect();
    let (result, output) = run(&words, "crane\n____G\nstomp\nGGG__\nstove\nGGGGG\n");
    assert_eq!(result, GameResult::Solved { round: 3 });
    assert!(output.contains("Candidates remaining: 2\nCandidates: STOVE, STOKE"));
}

#[test]
fn game_accepts_windows_line_endings_and_blank_lines() {
    let words = words();
    let (result, output) = run(&words, "\r\ncrane\r\nggggg\r\n");
    assert_eq!(result, GameResult::Solved { round: 1 });
    assert!(output.contains("Please enter exactly 5 alphabetic letters"));
}

#[test]
fn game_trims_white_space_around_lines() {
    let words = words();
    let (result, _) = run(&words, " \tcrane \u{3000}\n GGGGG\u{a0}\n");
    assert_eq!(result, GameResult::Solved { round: 1 });
}
