use wordle_solver::clue::{build_letter_constraints, matches_clue, matches_counts, matches_positions, Clue, Hint};
use std::collections::HashMap;

#[test]
fn test_clue_parse_valid() {
    let clue = Clue::parse("crane", "G_Y__").unwrap();
    assert_eq!(clue.word, ['c', 'r', 'a', 'n', 'e']);
    assert_eq!(
        clue.hints,
        [Hint::Green, Hint::Gray, Hint::Yellow, Hint::Gray, Hint::Gray]
    );
}

#[test]
fn test_clue_parse_invalid_length() {
    assert!(Clue::parse("cran", "G___").is_err());
    assert!(Clue::parse("crane", "G___").is_err());
}

#[test]
fn test_clue_parse_case_insensitive() {
    let clue = Clue::parse("CRANE", "g_y__").unwrap();
    assert_eq!(clue.word, ['c', 'r', 'a', 'n', 'e']);
    assert_eq!(clue.hints[0], Hint::Green);
    assert_eq!(clue.hints[2], Hint::Yellow);
}

#[test]
fn test_clue_parse_invalid_char_in_word() {
    assert!(Clue::parse("cr4ne", "G____").is_err());
    assert!(Clue::parse("cr ne", "G____").is_err());
}

#[test]
fn test_clue_parse_invalid_feedback_char() {
    assert!(Clue::parse("crane", "G_X__").is_err());
    assert!(Clue::parse("crane", "G_1__").is_err());
}

#[test]
fn parse_error_messages() {
    assert_eq!(
        Clue::parse("cran", "G____").err().unwrap(),
        "Word must be 5 letters, got 'cran'"
    );
    assert_eq!(
        Clue::parse("crane", "G___").err().unwrap(),
        "Feedback must be 5 chars (G/Y/_), got 'G___'"
    );
    assert_eq!(
        Clue::parse("cr4ne", "G____").err().unwrap(),
        "Word contains non-alphabetic character '4'"
    );
    assert_eq!(
        Clue::parse("crane", "G_X__").err().unwrap(),
        "Invalid feedback char 'X', use G/Y/_"
    );
}

#[test]
fn parse_reports_word_before_feedback() {
    assert_eq!(
        Clue::parse("cr4ne", "G_X__").err().unwrap(),
        "Word contains non-alphabetic character '4'"
    );
}

#[test]
fn parse_lowercases_word_and_uppercases_feedback() {
    let clue = Clue::parse("StOnE", "yg_Gy").unwrap();
    assert_eq!(clue.word, ['s', 't', 'o', 'n', 'e']);
    assert_eq!(
        clue.hints,
        [Hint::Yellow, Hint::Green, Hint::Gray, Hint::Green, Hint::Yellow]
    );
}

#[test]
fn from_case_folded_pads_short_input() {
    let clue = Clue::from_case_folded(&['a', 'b'], &['G']).unwrap();
    assert_eq!(clue.word, ['a', 'b', 'a', 'a', 'a']);
    assert_eq!(clue.hints, [Hint::Green, Hint::Gray, Hint::Gray, Hint::Gray, Hint::Gray]);
}

#[test]
fn positions_green_and_yellow() {
    let clue = Clue::parse("crane", "G_Y__").unwrap();
    let cabin: Vec<char> = "cabin".chars().collect();
    let coach: Vec<char> = "coach".chars().collect();
    let bacon: Vec<char> = "bacon".chars().collect();
    assert!(matches_positions(&cabin, &clue));
    assert!(!matches_positions(&coach, &clue));
    assert!(!matches_positions(&bacon, &clue));
}

#[test]
fn constraints_count_green_yellow_and_gray() {
    let clue = Clue::parse("erase", "GG___").unwrap();
    let c = build_letter_constraints(&clue);
    assert_eq!(c.len(), 4);
    assert_eq!(c[&('e' as u32)], (1, true));
    assert_eq!(c[&('r' as u32)], (1, false));
    assert_eq!(c[&('a' as u32)], (0, true));
    assert_eq!(c[&('s' as u32)], (0, true));
}

#[test]
fn counts_rules() {
    let mut constraints = HashMap::new();
    constraints.insert('e' as u32, (1usize, true));
    constraints.insert('r' as u32, (1usize, false));
    constraints.insert('a' as u32, (0usize, true));
    let mut counts = HashMap::new();
    counts.insert('e' as u32, 1usize);
    counts.insert('r' as u32, 3usize);
    assert!(matches_counts(&counts, &constraints));
    counts.insert('e' as u32, 2usize);
    assert!(!matches_counts(&counts, &constraints));
    counts.insert('e' as u32, 1usize);
    counts.insert('a' as u32, 1usize);
    assert!(!matches_counts(&counts, &constraints));
    counts.remove(&('a' as u32));
    counts.remove(&('r' as u32));
    assert!(!matches_counts(&counts, &constraints));
}

#[test]
fn matches_clue_duplicate_letters() {
    let clue = Clue::parse("erase", "GG___").unwrap();
    let constraints = build_letter_constraints(&clue);
    let error: Vec<char> = "error".chars().collect();
    let erode: Vec<char> = "erode".chars().collect();
    assert!(matches_clue(&error, &clue, &constraints));
    assert!(!matches_clue(&erode, &clue, &constraints));
}

#[test]
fn true_feedback_keeps_the_answer() {
    // answer "stove", guess "eerie": Wordle shows only e(4) green, the rest gray
    let clue = Clue::parse("eerie", "_____").unwrap();
    let constraints = build_letter_constraints(&clue);
    let stove: Vec<char> = "stove".chars().collect();
    assert!(!matches_clue(&stove, &clue, &constraints));
    let truthful = Clue::parse("eerie", "____G").unwrap();
    let constraints = build_letter_constraints(&truthful);
    assert!(matches_clue(&stove, &truthful, &constraints));
}

#[test]
fn parse_uses_unicode_lowercasing() {
    // KELVIN SIGN lowercases to an ASCII 'k'; the text takes five bytes.
    let clue = Clue::parse("\u{212A}ab", "ggg__").unwrap();
    assert_eq!(clue.word, ['k', 'a', 'b', 'a', 'a']);
    assert_eq!(clue.hints, [Hint::Green, Hint::Green, Hint::Green, Hint::Gray, Hint::Gray]);
}

#[test]
fn gray_position_is_not_checked() {
    // guess "cqcqq" against "zzzcz" shows c yellow then c gray; "zzczz" still fits
    let clue = Clue::parse("cqcqq", "Y____").unwrap();
    let constraints = build_letter_constraints(&clue);
    let w: Vec<char> = "zzczz".chars().collect();
    assert!(matches_clue(&w, &clue, &constraints));
}

#[test]
fn guess_fits_its_own_clue_only_when_all_green() {
    let crane: Vec<char> = "crane".chars().collect();
    for (feedback, expected) in [("GGGGG", true), ("GGGG_", false), ("YGGGG", false), ("_____", false)] {
        let clue = Clue::parse("crane", feedback).unwrap();
        let constraints = build_letter_constraints(&clue);
        assert_eq!(matches_clue(&crane, &clue, &constraints), expected, "{feedback}");
    }
}

#[test]
fn short_words_are_checked_where_readable() {
    let clue = Clue::parse("crane", "G____").unwrap();
    let zz: Vec<char> = "zz".chars().collect();
    assert!(!matches_positions(&zz, &clue));
    let gray = Clue::parse("crane", "_____").unwrap();
    let constraints = build_letter_constraints(&gray);
    let xy: Vec<char> = "xy".chars().collect();
    assert!(matches_clue(&xy, &gray, &constraints));
}
