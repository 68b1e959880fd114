use wordle_solver::errors::SolverError;
use wordle_solver::score::Score;
use wordle_solver::solver::{best_guess, cheat_round, filter_pool, sim_game, words, worst_case_count, RoundOutcome};
use wordle_solver::word::{is_valid_word, Word};

fn pool(names: &[&str]) -> Vec<Word> {
    names.iter().map(|s| Word::new(s)).collect()
}

fn renders(pool: &[Word]) -> Vec<String> {
    pool.iter().map(|w| w.render()).collect()
}

#[test]
fn round_trip_simple() {
    assert_eq!(Word::new("hello").render(), "hello");
    assert_eq!(Word::new("abcde").render(), "abcde");
    assert_eq!(Word::new("zzzzz").render(), "zzzzz");
    assert_eq!(Word::new("mumps").render(), "mumps");
}

#[test]
fn self_feedback_all_green() {
    let w = Word::new("crane");
    let s = Score::new(&w, &w);
    assert_eq!(s.good_loc.len(), 5);
    assert!(s.bad_loc.is_empty());
    assert!(s.missing.is_clear());
    assert!(s.matches(&w));
    assert!(s.matches(&Word::new("crane")));
}

#[test]
fn self_feedback_with_repeated_letters() {
    let w = Word::new("mummy");
    let s = Score::new(&w, &w);
    assert_eq!(s.good_loc.len(), 5);
    assert!(s.bad_loc.is_empty());
    assert!(s.matches(&w));
}

#[test]
fn scenario_feedback_and_filtering() {
    let solutions = pool(&["abcde", "abcxy", "zzzzz"]);
    let guess = Word::new("abcde");
    let hypothetical = Word::new("abcxy");
    let s = Score::new(&hypothetical, &guess);
    assert_eq!(s.good_loc, vec![(0, 0), (1, 1), (2, 2)]);
    assert!(!s.matches(&Word::new("zzzzz")));
    assert!(s.matches(&Word::new("abcxy")));
    let remaining = filter_pool(&s, &solutions);
    assert_eq!(renders(&remaining), vec!["abcxy".to_string()]);
}

#[test]
fn feedback_of_guess_against_solution() {
    // "ab" keep their place, "c" is misplaced, "xy" are absent.
    let solution = Word::new("abzcz");
    let guess = Word::new("abcxy");
    let s = Score::new(&solution, &guess);
    assert_eq!(s.good_loc, vec![(0, 0), (1, 1)]);
    assert_eq!(s.bad_loc, vec![(2, 2)]);
    assert!(s.missing.contains(23)); // x
    assert!(s.missing.contains(24)); // y
    assert!(s.present.contains(0));
    assert!(s.present.contains(1));
    assert!(s.present.contains(2));
    // Each guess position lands in exactly one category.
    assert!(s.present.is_disjoint(&s.missing));
}

#[test]
fn wrong_guess_is_eliminated() {
    let p = pool(&["slate", "crane"]);
    let target = Word::new("slate");
    let guess = Word::new("crane");
    let s = Score::new(&target, &guess);
    let kept = renders(&filter_pool(&s, &p));
    assert!(kept.contains(&"slate".to_string()));
    assert!(!kept.contains(&"crane".to_string()));
}

#[test]
fn filtering_never_grows_and_removed_words_fail() {
    let p = pool(&["slate", "crane", "pride", "fjord", "gnome"]);
    let guess = Word::new("crane");
    let target = Word::new("pride");
    let s = Score::new(&target, &guess);
    let remaining = filter_pool(&s, &p);
    assert!(remaining.len() <= p.len());
    let kept = renders(&remaining);
    for w in &p {
        let name = w.render();
        if kept.contains(&name) {
            assert!(s.matches(w));
        } else {
            assert!(!s.matches(w));
        }
    }
    // The hypothetical solution itself always survives.
    assert!(kept.contains(&"pride".to_string()));
}

#[test]
fn observed_feedback_parses_to_same_fields() {
    let guess = Word::new("abcxy");
    let s = Score::from_str("gg.y.", &guess).unwrap();
    assert_eq!(s.good_loc, vec![(0, 0), (1, 1)]);
    assert_eq!(s.bad_loc, vec![(23, 3)]);
    assert!(s.present.contains(0));
    assert!(s.present.contains(1));
    assert!(s.present.contains(23));
    assert!(s.missing.contains(2));
    assert!(s.missing.contains(24));
}

#[test]
fn yellow_letter_rejects_candidate_with_letter_at_that_position() {
    let guess = Word::new("abcde");
    let s = Score::from_str("y....", &guess).unwrap();
    // 'a' is present but not at position 0.
    assert!(!s.matches(&Word::new("aorta")));
    assert!(s.matches(&Word::new("umami")));
}

#[test]
fn malformed_feedback_wrong_length() {
    let guess = Word::new("abcde");
    let r = Score::from_str("ggg", &guess);
    assert!(matches!(r, Err(SolverError::MalformedFeedback)));
}

#[test]
fn malformed_feedback_invalid_character() {
    let guess = Word::new("abcde");
    let r = Score::from_str("gxg..", &guess);
    assert!(matches!(r, Err(SolverError::MalformedFeedback)));
}

#[test]
fn selector_minimality_on_synthetic_pools() {
    let solutions = pool(&["aabbb", "aaccc", "adddd", "eeeee", "eefff", "egggg"]);
    let guesses = pool(&["abcde", "aeaea", "bcdfg", "zzzzz"]);
    let best = best_guess(&solutions, &guesses).unwrap();
    let best_score = worst_case_count(&best, &solutions);
    for g in &guesses {
        assert!(best_score <= worst_case_count(g, &solutions));
    }
}

#[test]
fn selector_breaks_ties_by_pool_order() {
    // Neither guess shares a letter with any solution, so both have the same
    // worst-case count; the first must win.
    let solutions = pool(&["aaaaa", "bbbbb"]);
    let guesses = pool(&["vwxyz", "zyxwv"]);
    let best = best_guess(&solutions, &guesses).unwrap();
    assert_eq!(best.render(), "vwxyz");
}

#[test]
fn selector_empty_pools_fail() {
    let some = pool(&["abcde"]);
    let none: Vec<Word> = Vec::new();
    assert!(matches!(best_guess(&none, &some), Err(SolverError::EmptyPool)));
    assert!(matches!(best_guess(&some, &none), Err(SolverError::EmptyPool)));
}

#[test]
fn games_converge_for_every_target() {
    let names = ["abcde", "fghij", "klmno", "pqrst", "uvwxy"];
    let solutions = pool(&names);
    let guesses = pool(&names);
    let first = Word::new("abcde");
    for name in names {
        let target = Word::new(name);
        let r = sim_game(&target, solutions.clone(), &guesses, &first, 6);
        let n = r.expect("game did not converge within 6 rounds");
        assert!((1..=6).contains(&n));
    }
}

#[test]
fn game_hits_round_bound() {
    let solutions = pool(&["abcde", "fghij"]);
    let guesses = pool(&["abcde", "fghij"]);
    let target = Word::new("fghij");
    let first = Word::new("abcde");
    assert_eq!(sim_game(&target, solutions.clone(), &guesses, &first, 0), None);
    // A first guess that already hits the target needs no rounds at all.
    assert_eq!(sim_game(&target, solutions, &guesses, &target, 0), Some(1));
}

#[test]
fn round_solves_when_one_candidate_remains() {
    let solutions = pool(&["abcde", "abcxy", "zzzzz"]);
    let guesses = pool(&["abcde", "fghij"]);
    let last = Word::new("abcde");
    // "ggg.." keeps only "abcxy": "abcde" has the absent 'd', 'e'.
    match cheat_round("ggg..", &last, &solutions, &guesses) {
        Ok(RoundOutcome::Solved(w)) => assert_eq!(w.render(), "abcxy"),
        _ => panic!("expected the round to solve"),
    }
}

#[test]
fn round_continues_with_next_guess() {
    let names = ["aabbb", "aaccc", "adddd", "eeeee"];
    let solutions = pool(&names);
    let guesses = pool(&names);
    let last = Word::new("zzzzz");
    // All letters absent: every candidate survives.
    match cheat_round(".....", &last, &solutions, &guesses) {
        Ok(RoundOutcome::Continue(remaining, next)) => {
            assert_eq!(renders(&remaining), names.map(String::from).to_vec());
            let next_score = worst_case_count(&next, &remaining);
            for g in &guesses {
                assert!(next_score <= worst_case_count(g, &remaining));
            }
        },
        _ => panic!("expected the round to continue"),
    }
}

#[test]
fn round_rejects_malformed_feedback() {
    let solutions = pool(&["abcde", "abcxy"]);
    let guesses = pool(&["abcde"]);
    let last = Word::new("abcde");
    let r = cheat_round("ggggg!", &last, &solutions, &guesses);
    assert!(matches!(r, Err(SolverError::MalformedFeedback)));
}

#[test]
fn round_with_contradictory_feedback_is_fatal() {
    let solutions = pool(&["abcde", "abcxy"]);
    let guesses = pool(&["abcde"]);
    let last = Word::new("abcde");
    // Both candidates hold 'a', so "a absent" contradicts the whole pool.
    let r = cheat_round(".gg..", &last, &solutions, &guesses);
    assert!(matches!(r, Err(SolverError::EmptyPool)));
}

#[test]
fn vocabulary_loads_in_order() {
    let lines: Vec<String> = vec!["slate".to_string(), "crane".to_string()];
    let ws = words(&lines).unwrap();
    assert_eq!(renders(&ws), vec!["slate".to_string(), "crane".to_string()]);
}

#[test]
fn vocabulary_rejects_malformed_lines() {
    for bad in ["abc", "abcdef", "ABCDE", "ab1de", "ab de", ""] {
        let lines: Vec<String> = vec!["slate".to_string(), bad.to_string()];
        let r = words(&lines);
        assert!(matches!(r, Err(SolverError::VocabularyFormat)));
    }
}

#[test]
fn word_validation() {
    assert!(is_valid_word("abcde"));
    assert!(is_valid_word("zzzzz"));
    assert!(!is_valid_word("abcd"));
    assert!(!is_valid_word("abcdef"));
    assert!(!is_valid_word("Abcde"));
    assert!(!is_valid_word("abcd3"));
    assert!(!is_valid_word("ab?de"));
}
