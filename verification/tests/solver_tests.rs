use wordle_solver::clue::Clue;
use wordle_solver::solver::{filter_candidates, format_candidates, is_list_command, load_words, playable_dictionary, suggest_next};

#[test]
fn test_load_words() {
    let words = load_words();
    assert!(!words.is_empty());
    assert!(words.iter().all(|w| w.len() == 5));
}

#[test]
fn test_filter_green() {
    let words = vec![
        "stone".to_string(),
        "slick".to_string(),
        "crane".to_string(),
    ];
    let clue = Clue::parse("swxyz", "G____").unwrap();
    let result = filter_candidates(&words, &[clue]);
    assert!(result.contains(&"stone".to_string()));
    assert!(result.contains(&"slick".to_string()));
    assert!(!result.contains(&"crane".to_string()));
}

#[test]
fn test_filter_gray_removes_words_with_letter() {
    let words = vec![
        "crane".to_string(),
        "swift".to_string(),
        "stole".to_string(),
    ];
    let clue = Clue::parse("crane", "_____").unwrap();
    let result = filter_candidates(&words, &[clue]);
    assert!(!result.contains(&"crane".to_string()));
    assert!(result.contains(&"swift".to_string()));
    assert!(!result.contains(&"stole".to_string()));
}

#[test]
fn test_filter_yellow_wrong_position() {
    let words = vec![
        "crane".to_string(),
        "acorn".to_string(),
        "raced".to_string(),
    ];
    let clue = Clue::parse("rbxxx", "Y____").unwrap();
    let result = filter_candidates(&words, &[clue]);
    assert!(!result.contains(&"raced".to_string()));
    assert!(result.contains(&"crane".to_string()));
    assert!(result.contains(&"acorn".to_string()));
}

#[test]
fn test_filter_yellow_letter_must_be_present() {
    let words = vec![
        "stone".to_string(),
        "built".to_string(),
        "crane".to_string(),
        "towel".to_string(),
    ];
    let clue = Clue::parse("txxxx", "Y____").unwrap();
    let result = filter_candidates(&words, &[clue]);
    assert!(result.contains(&"stone".to_string()));
    assert!(result.contains(&"built".to_string()));
    assert!(!result.contains(&"crane".to_string()));
    assert!(!result.contains(&"towel".to_string()));
}

#[test]
fn test_duplicate_letter_gray_exact_count() {
    let words = vec!["snowy".to_string(), "built".to_string(), "speed".to_string()];
    let clue = Clue::parse("eerie", "_____").unwrap();
    let result = filter_candidates(&words, &[clue]);
    assert!(result.contains(&"snowy".to_string()));
    assert!(!result.contains(&"built".to_string()));
    assert!(!result.contains(&"speed".to_string()));
}

#[test]
fn test_duplicate_letter_green_and_gray_exact_count() {
    let words = vec![
        "erode".to_string(),
        "error".to_string(),
        "groan".to_string(),
    ];
    let clue = Clue::parse("erase", "GG___").unwrap();
    let result = filter_candidates(&words, &[clue]);
    assert!(!result.contains(&"erode".to_string()));
    assert!(result.contains(&"error".to_string()));
    assert!(!result.contains(&"groan".to_string()));
}

#[test]
fn test_multiple_clues_accumulated() {
    let all_words = load_words();
    let clue1 = Clue::parse("raise", "_____").unwrap();
    let clue2 = Clue::parse("clout", "G____").unwrap();
    let candidates = filter_candidates(&all_words, &[clue1, clue2]);

    for word in &candidates {
        let chars: Vec<char> = word.chars().collect();
        assert_eq!(chars[0], 'c', "word '{word}' doesn't start with 'c'");
        for banned in ['r', 'a', 'i', 's', 'e', 'l', 'o', 'u', 't'] {
            assert!(!word.contains(banned), "word '{word}' contains banned letter '{banned}'");
        }
    }
    assert!(candidates.len() < all_words.len());
}

#[test]
fn test_full_solve_scenario() {
    let all_words = load_words();
    let mut candidates = all_words.clone();

    let clue1 = Clue::parse("brick", "_____").unwrap();
    candidates = filter_candidates(&candidates, &[clue1]);
    assert!(!candidates.contains(&"brick".to_string()));
    assert!(candidates.contains(&"stole".to_string()));
    assert!(candidates.len() < all_words.len());
}

#[test]
fn test_solve_converges() {
    let all_words = load_words();
    let mut candidates = all_words.clone();

    let c1 = Clue::parse("crane", "____G").unwrap();
    candidates = filter_candidates(&candidates, &[c1]);
    assert!(candidates.contains(&"stove".to_string()), "stove should survive round 1");
    let count1 = candidates.len();

    let c2 = Clue::parse("stomp", "GGG__").unwrap();
    candidates = filter_candidates(&candidates, &[c2]);
    assert!(candidates.contains(&"stove".to_string()), "stove should survive round 2");
    assert!(candidates.len() < count1, "candidates should decrease");
}

#[test]
fn test_suggest_next_single_candidate() {
    let all_words = load_words();
    let candidates = vec!["crane".to_string()];
    let suggestion = suggest_next(&candidates, &all_words);
    assert_eq!(suggestion, Some("crane".to_string()));
}

#[test]
fn test_suggest_next_returns_candidate() {
    let all_words = load_words();
    let suggestion = suggest_next(&all_words, &all_words);
    assert!(suggestion.is_some());
    let s = suggestion.unwrap();
    assert_eq!(s.len(), 5);
    assert!(all_words.contains(&s));
}

#[test]
fn test_suggest_next_empty_candidates() {
    let all_words = load_words();
    let candidates: Vec<String> = vec![];
    assert_eq!(suggest_next(&candidates, &all_words), None);
}

#[test]
fn solver_test_is_list_command() {
    assert!(is_list_command("list"));
    assert!(is_list_command("LIST"));
    assert!(is_list_command("List"));
    assert!(is_list_command("?"));
    assert!(!is_list_command("crane"));
    assert!(!is_list_command(""));
    assert!(!is_list_command("lists"));
    assert!(!is_list_command("lis"));
}

#[test]
fn solver_test_format_candidates_empty() {
    let candidates: Vec<String> = vec![];
    let output = format_candidates(&candidates);
    assert_eq!(output, "Remaining candidates (0):");
}

#[test]
fn solver_test_format_candidates_few() {
    let candidates = vec!["stone".to_string(), "stove".to_string(), "stoke".to_string()];
    let output = format_candidates(&candidates);
    assert!(output.starts_with("Remaining candidates (3):"));
    assert!(output.contains("STONE"));
    assert!(output.contains("STOVE"));
    assert!(output.contains("STOKE"));
}

#[test]
fn solver_test_format_candidates_wraps_at_10() {
    let candidates: Vec<String> = (0..12)
        .map(|i| format!("word{}", (b'a' + i as u8) as char))
        .collect();
    let output = format_candidates(&candidates);
    let lines: Vec<&str> = output.lines().collect();
    assert_eq!(lines.len(), 2);
}

#[test]
fn format_candidates_exact_text() {
    let candidates = vec!["stone".to_string(), "stove".to_string()];
    assert_eq!(
        format_candidates(&candidates),
        "Remaining candidates (2):  STONE  STOVE"
    );
}

#[test]
fn is_list_command_rejects_non_ascii_lookalikes() {
    assert!(is_list_command("lIsT"));
    assert!(!is_list_command("lİst"));
    assert!(!is_list_command("??"));
}

#[test]
fn filter_without_clues_keeps_all() {
    let words = vec!["ab".to_string(), "stone".to_string()];
    assert_eq!(filter_candidates(&words, &[]), words);
}

#[test]
fn filter_accumulates_clues() {
    let words: Vec<String> = ["stone", "stove", "stoke", "judge", "crane", "bulge"]
        .iter()
        .map(|w| w.to_string())
        .collect();
    let a = Clue::parse("crane", "____G").unwrap();
    let b = Clue::parse("stomp", "GGG__").unwrap();
    let once = filter_candidates(&words, &[a, b]);
    let a = Clue::parse("crane", "____G").unwrap();
    let b = Clue::parse("stomp", "GGG__").unwrap();
    let twice = filter_candidates(&filter_candidates(&words, &[a]), &[b]);
    assert_eq!(once, twice);
    assert_eq!(once, vec!["stove".to_string(), "stoke".to_string()]);
}

#[test]
fn filter_keeps_order() {
    let words: Vec<String> = ["zebra", "apple", "maple"].iter().map(|w| w.to_string()).collect();
    let clue = Clue::parse("lxxxe", "Y___G").unwrap();
    assert_eq!(
        filter_candidates(&words, &[clue]),
        vec!["apple".to_string(), "maple".to_string()]
    );
}

#[test]
fn suggest_next_picks_last_best_score() {
    // letter frequencies over the candidates: a 3, b 4, x 1, y 1, z 1
    let candidates: Vec<String> = ["aabbb", "abxyz"].iter().map(|w| w.to_string()).collect();
    // scores: "aabbb" = a(3) + b(4) = 7; "abxyz" = a + b + x + y + z = 3 + 4 + 1 + 1 + 1 = 10
    assert_eq!(suggest_next(&candidates, &[]), Some("abxyz".to_string()));
    let tied: Vec<String> = ["abcde", "edcba"].iter().map(|w| w.to_string()).collect();
    assert_eq!(suggest_next(&tied, &[]), Some("edcba".to_string()));
}

#[test]
fn suggest_next_searches_all_words_for_large_pools() {
    let candidates: Vec<String> = ["aaaaa", "aaaab", "aaaac", "aaaad", "aaaae", "aaaaf", "aaaag"]
        .iter()
        .map(|w| w.to_string())
        .collect();
    let all: Vec<String> = ["zzzzz", "bcdea"].iter().map(|w| w.to_string()).collect();
    assert_eq!(suggest_next(&candidates, &all), Some("bcdea".to_string()));
    assert_eq!(suggest_next(&candidates, &[]), None);
}

#[test]
fn filter_handles_short_words_with_gray_clues() {
    let words = vec!["xy".to_string(), "ab".to_string(), "light".to_string()];
    let clue = Clue::parse("crane", "_____").unwrap();
    assert_eq!(
        filter_candidates(&words, &[clue]),
        vec!["xy".to_string(), "light".to_string()]
    );
}

#[test]
fn playable_dictionary_needs_five_letters() {
    assert!(playable_dictionary(&load_words()));
    assert!(load_words().iter().all(|w| w.chars().count() == 5));
    let short = vec!["stone".to_string(), "abc".to_string()];
    assert!(!playable_dictionary(&short));
    assert!(playable_dictionary(&[]));
}
