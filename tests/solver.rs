use wordle_solver::cache::{Resolution, StrategyCache, resolve_strategy, strategy_for_word_list};
use wordle_solver::constraint::{
    GuessResult, LetterConstraint, calculate_guess_result, is_valid_word, word_consistent,
};
use wordle_solver::evaluate::{
    StrategyOutcome, choose_optimal_strategy, pick_winner, simulate_target, test_strategy,
};
use wordle_solver::filter::filter_using_known_info;
use wordle_solver::input::{
    FeedbackKind, LineError, LineInput, ProcessInputError, apply_feedback_line, check_line,
    finish_feedback, is_complete, process_input,
};
use wordle_solver::opening::{Strategy, get_first_guess};
use wordle_solver::ranking::{Scored, optimise_results, sort_by_score};
use wordle_solver::wordlist::{WordListError, parse_word_list};

use LetterConstraint::{Absent, Correct, Misplaced, Unset};

fn words(ws: &[&str]) -> Vec<String> {
    ws.iter().map(|w| w.to_string()).collect()
}

fn result(slots: [LetterConstraint; 5]) -> GuessResult {
    GuessResult { slots }
}

fn items(v: &[Scored<String>]) -> Vec<String> {
    v.iter().map(|s| s.item.clone()).collect()
}

#[test]
fn feedback_for_crane_against_trace() {
    let r = calculate_guess_result(&"trace".to_string(), &"crane".to_string());
    assert_eq!(
        r.slots,
        [Misplaced('c'), Correct('r'), Correct('a'), Absent('n'), Correct('e')]
    );
}

#[test]
fn crane_against_trace_leaves_only_trace() {
    let candidates = words(&["crane", "crate", "trace"]);
    let r = calculate_guess_result(&"trace".to_string(), &"crane".to_string());
    let left = filter_using_known_info(&candidates, &vec![r]);
    assert_eq!(left, words(&["trace"]));
}

#[test]
fn feedback_with_repeated_guess_letter() {
    let r = calculate_guess_result(&"crane".to_string(), &"crace".to_string());
    assert_eq!(
        r.slots,
        [Correct('c'), Correct('r'), Correct('a'), Misplaced('c'), Correct('e')]
    );
}

#[test]
fn all_correct_leaves_at_most_the_spelled_word() {
    let candidates = words(&["crane", "crate", "trace", "crane", "react"]);
    let g = result([Correct('c'), Correct('r'), Correct('a'), Correct('t'), Correct('e')]);
    let left = filter_using_known_info(&candidates, &vec![g]);
    assert_eq!(left, words(&["crate"]));
    let none = result([Correct('z'), Correct('z'), Correct('z'), Correct('z'), Correct('z')]);
    assert!(filter_using_known_info(&candidates, &vec![none]).is_empty());
}

#[test]
fn misplaced_letter_excludes_its_position() {
    let candidates = words(&["crane", "acorn", "scare", "plumb"]);
    let g = result([Misplaced('c'), Absent('x'), Absent('y'), Absent('z'), Absent('q')]);
    let left = filter_using_known_info(&candidates, &vec![g]);
    // "crane" holds 'c' at the excluded position; "plumb" holds no 'c'.
    assert_eq!(left, words(&["acorn", "scare"]));
}

#[test]
fn absent_letter_excludes_every_word_holding_it() {
    let candidates = words(&["crane", "plumb", "nodes"]);
    let g = result([Absent('n'), Absent('x'), Absent('y'), Absent('z'), Absent('q')]);
    assert_eq!(filter_using_known_info(&candidates, &vec![g]), words(&["plumb"]));
}

#[test]
fn filter_narrows_and_is_idempotent() {
    let candidates = words(&["crane", "crate", "trace", "react", "plumb"]);
    let g1 = calculate_guess_result(&"react".to_string(), &"plumb".to_string());
    let g2 = calculate_guess_result(&"react".to_string(), &"crane".to_string());
    let h1 = vec![g1];
    let h2 = vec![g1, g2];
    let once = filter_using_known_info(&candidates, &h1);
    let twice = filter_using_known_info(&candidates, &h2);
    assert!(once.iter().all(|w| candidates.contains(w)));
    assert!(twice.iter().all(|w| once.contains(w)));
    assert!(twice.len() <= once.len());
    assert_eq!(filter_using_known_info(&once, &h1), once);
    assert_eq!(filter_using_known_info(&twice, &h2), twice);
    assert!(twice.contains(&"react".to_string()));
}

#[test]
fn target_survives_its_own_feedback() {
    let candidates = words(&["crane", "crate", "trace", "react", "plumb", "acorn"]);
    for target in &candidates {
        let mut history = Vec::new();
        for guess in ["plumb", "acorn", "crane"] {
            history.push(calculate_guess_result(target, &guess.to_string()));
            assert!(word_consistent(target, &history));
            assert!(filter_using_known_info(&candidates, &history).contains(target));
        }
    }
}

#[test]
fn empty_history_keeps_everything() {
    let candidates = words(&["crane", "crate", "trace"]);
    assert_eq!(filter_using_known_info(&candidates, &vec![]), candidates);
}

#[test]
fn scores_with_empty_history() {
    let ranked = optimise_results(&words(&["trace", "crane", "crate"]), &vec![]);
    assert_eq!(items(&ranked), words(&["crane", "crate", "trace"]));
    let scores: Vec<usize> = ranked.iter().map(|s| s.score).collect();
    assert_eq!(scores, vec![13, 13, 12]);
}

#[test]
fn scores_count_only_positions_always_misplaced() {
    let h = vec![result([Misplaced('x'), Correct('r'), Absent('z'), Misplaced('y'), Correct('e')])];
    let ranked = optimise_results(&words(&["trace", "crane", "crate"]), &h);
    assert_eq!(items(&ranked), words(&["crane", "crate", "trace"]));
    let scores: Vec<usize> = ranked.iter().map(|s| s.score).collect();
    assert_eq!(scores, vec![4, 4, 3]);
}

#[test]
fn scores_are_all_one_when_no_position_is_open() {
    let h = vec![
        result([Absent('d'), Correct('r'), Absent('u'), Misplaced('n'), Absent('k')]),
        result([Absent('f'), Absent('i'), Misplaced('g'), Absent('h'), Absent('t')]),
    ];
    let left = filter_using_known_info(&words(&["groan", "green", "grown", "drunk"]), &h);
    assert_eq!(left, words(&["groan", "green", "grown"]));
    let ranked = optimise_results(&left, &h);
    assert_eq!(items(&ranked), words(&["groan", "green", "grown"]));
    assert!(ranked.iter().all(|s| s.score == 1));
}

#[test]
fn ranking_is_deterministic() {
    let c = words(&["crane", "crate", "trace", "react", "caret"]);
    let h = vec![result([Misplaced('r'), Misplaced('a'), Absent('z'), Misplaced('e'), Absent('q')])];
    let a = optimise_results(&c, &h);
    let b = optimise_results(&c, &h);
    assert_eq!(items(&a), items(&b));
    let sa: Vec<usize> = a.iter().map(|s| s.score).collect();
    let sb: Vec<usize> = b.iter().map(|s| s.score).collect();
    assert_eq!(sa, sb);
}

#[test]
fn ranking_empty_candidates() {
    let h = vec![result([Misplaced('r'), Correct('a'), Absent('z'), Misplaced('e'), Absent('q')])];
    assert!(optimise_results(&vec![], &h).is_empty());
    assert!(optimise_results(&vec![], &vec![]).is_empty());
}

#[test]
fn sort_is_stable_and_descending() {
    let v = vec![
        Scored { item: 'a', score: 1 },
        Scored { item: 'b', score: 3 },
        Scored { item: 'c', score: 1 },
        Scored { item: 'd', score: 3 },
        Scored { item: 'e', score: 2 },
    ];
    let r: Vec<char> = sort_by_score(v).iter().map(|s| s.item).collect();
    assert_eq!(r, vec!['b', 'd', 'e', 'a', 'c']);
}

#[test]
fn position_aware_opening() {
    let g = get_first_guess(&words(&["crane", "crate", "trace"]), Strategy::FrequencyPositionAware);
    assert_eq!(g, "crace");
}

#[test]
fn simple_opening() {
    let g = get_first_guess(&words(&["crane", "crate", "trace"]), Strategy::FrequencySimple);
    assert_eq!(g, "acert");
}

#[test]
fn openings_for_an_empty_list() {
    assert_eq!(get_first_guess(&vec![], Strategy::FrequencyPositionAware), "aaaaa");
    assert_eq!(get_first_guess(&vec![], Strategy::FrequencySimple), "abcde");
}

#[test]
fn random_opening_is_five_letters() {
    for _ in 0..20 {
        let g = get_first_guess(&words(&["crane"]), Strategy::Random);
        assert_eq!(g.chars().count(), 5);
        assert!(g.chars().all(|c| c.is_ascii_lowercase()));
    }
}

#[test]
fn simulation_of_each_target() {
    let list = words(&["crane", "crate", "trace"]);
    let opening = "crace".to_string();
    assert!(simulate_target(&list, &"crane".to_string(), &opening));
    assert!(simulate_target(&list, &"crate".to_string(), &opening));
    assert!(simulate_target(&list, &"trace".to_string(), &opening));
}

#[test]
fn simulation_can_run_out_of_guesses() {
    let list = words(&["bills", "fills", "gills", "hills", "kills", "mills", "pills", "tills"]);
    let opening = "zzzzz".to_string();
    let solved: Vec<bool> =
        list.iter().map(|t| simulate_target(&list, t, &opening)).collect();
    assert_eq!(solved, vec![true, true, true, true, true, false, false, false]);
}

#[test]
fn strategy_counts_solved_words() {
    let list = words(&["crane", "crate", "trace"]);
    assert_eq!(test_strategy(&list, Strategy::FrequencyPositionAware), (3, "crace".to_string()));
    let list = words(&["bills", "fills", "gills", "hills", "kills", "mills", "pills", "tills"]);
    let (n, opening) = test_strategy(&list, Strategy::FrequencySimple);
    let expected = list.iter().filter(|t| simulate_target(&list, t, &opening)).count();
    assert_eq!(n, expected);
}

#[test]
fn selection_reports_every_strategy() {
    let list = words(&["crane", "crate", "trace", "react", "plumb", "bills", "mills"]);
    let sel = choose_optimal_strategy(&list);
    assert_eq!(sel.outcomes.len(), 3);
    let order: Vec<Strategy> = sel.outcomes.iter().map(|o| o.strategy).collect();
    assert_eq!(
        order,
        vec![Strategy::FrequencyPositionAware, Strategy::FrequencySimple, Strategy::Random]
    );
    let best = sel.outcomes.iter().map(|o| o.solved).max().unwrap();
    assert!(sel.outcomes.iter().all(|o| o.solved <= list.len()));
    let winner = sel.outcomes.iter().find(|o| o.solved == best).unwrap();
    assert_eq!(sel.strategy, winner.strategy);
    assert_eq!(sel.opening, winner.opening);
}

#[test]
fn selection_prefers_position_aware_on_ties() {
    let list = words(&["crane", "crate", "trace"]);
    let sel = choose_optimal_strategy(&list);
    assert_eq!(sel.strategy, Strategy::FrequencyPositionAware);
    assert_eq!(sel.opening, "crace");
    assert_eq!(sel.outcomes[0].solved, 3);
}

#[test]
fn winner_is_first_highest() {
    let o = |s, n| StrategyOutcome { strategy: s, solved: n, opening: "abcde".to_string() };
    let v = vec![
        o(Strategy::FrequencyPositionAware, 2),
        o(Strategy::FrequencySimple, 5),
        o(Strategy::Random, 5),
    ];
    assert_eq!(pick_winner(&v), 1);
    let v = vec![o(Strategy::FrequencyPositionAware, 4), o(Strategy::FrequencySimple, 4)];
    assert_eq!(pick_winner(&v), 0);
}

#[test]
fn cache_round_trip() {
    let mut cache = StrategyCache::new();
    let d = vec![7u8; 32];
    assert!(cache.lookup(&d).is_none());
    cache.insert(d.clone(), Strategy::FrequencySimple, "acert".to_string());
    assert_eq!(cache.lookup(&d), Some((Strategy::FrequencySimple, "acert".to_string())));
    assert!(cache.lookup(&vec![8u8; 32]).is_none());
    cache.insert(d.clone(), Strategy::Random, "qwert".to_string());
    assert_eq!(cache.lookup(&d), Some((Strategy::Random, "qwert".to_string())));
}

#[test]
fn cached_strategy_is_used_without_recomputing() {
    let list = words(&["crane", "crate", "trace"]);
    let mut cache = StrategyCache::new();
    let d = vec![1u8, 2, 3];
    cache.insert(d.clone(), Strategy::Random, "zzzzz".to_string());
    match resolve_strategy(&mut cache, d, &list) {
        Resolution::Cached { strategy, opening } => {
            assert_eq!(strategy, Strategy::Random);
            assert_eq!(opening, "zzzzz");
        }
        Resolution::Computed(_) => panic!("expected the cached strategy"),
    }
}

#[test]
fn word_list_digest_keys_the_cache() {
    let text = "crane\ncrate\ntrace\n";
    let list = words(&["crane", "crate", "trace"]);
    let mut cache = StrategyCache::new();
    match strategy_for_word_list(&mut cache, text, &list) {
        Resolution::Computed(sel) => assert_eq!(sel.strategy, Strategy::FrequencyPositionAware),
        Resolution::Cached { .. } => panic!("the cache was empty"),
    }
    assert_eq!(cache.entries.len(), 1);
    let expected = blake3::hash(text.as_bytes()).as_bytes().to_vec();
    assert_eq!(cache.entries[0].digest, expected);
    assert_ne!(cache.entries[0].digest, text.as_bytes().to_vec());
    match strategy_for_word_list(&mut cache, text, &list) {
        Resolution::Cached { strategy, opening } => {
            assert_eq!(strategy, Strategy::FrequencyPositionAware);
            assert_eq!(opening, "crace");
        }
        Resolution::Computed(_) => panic!("expected the cached strategy"),
    }
}

#[test]
fn valid_words() {
    assert!(is_valid_word(&"crane".to_string()));
    assert!(!is_valid_word(&"cran".to_string()));
    assert!(!is_valid_word(&"cranes".to_string()));
    assert!(!is_valid_word(&"Crane".to_string()));
    assert!(!is_valid_word(&"cr-ne".to_string()));
}

#[test]
fn line_checks() {
    let c = |s: &str| check_line(&s.to_string(), 5);
    assert!(matches!(c("exit"), Ok(LineInput::Exit)));
    match c("ab-") {
        Ok(LineInput::Entry(s)) => assert_eq!(s, "ab---"),
        _ => panic!("expected a padded entry"),
    }
    match c("") {
        Ok(LineInput::Entry(s)) => assert_eq!(s, ""),
        _ => panic!("expected an empty entry"),
    }
    match c("a-c-e") {
        Ok(LineInput::Entry(s)) => assert_eq!(s, "a-c-e"),
        _ => panic!("expected the line unchanged"),
    }
    assert!(matches!(c("AB"), Err(LineError::InvalidCharacter)));
    assert!(matches!(c("ab1"), Err(LineError::InvalidCharacter)));
    assert!(matches!(c("abcdef"), Err(LineError::TooLong)));
}

#[test]
fn feedback_entry() {
    let guess = "crane".to_string();
    let mut slots = [Unset; 5];
    apply_feedback_line(&mut slots, FeedbackKind::Misplaced, &"c----".to_string(), &guess);
    assert_eq!(slots, [Misplaced('c'), Unset, Unset, Unset, Unset]);
    assert!(!is_complete(&slots));
    apply_feedback_line(&mut slots, FeedbackKind::Absent, &"---n-".to_string(), &guess);
    assert_eq!(slots, [Misplaced('c'), Unset, Unset, Absent('n'), Unset]);
    let r = finish_feedback(&slots, &guess);
    assert_eq!(r.slots, [Misplaced('c'), Correct('r'), Correct('a'), Absent('n'), Correct('e')]);

    let mut slots = [Unset; 5];
    apply_feedback_line(&mut slots, FeedbackKind::Absent, &"".to_string(), &guess);
    assert_eq!(slots, [Absent('c'), Absent('r'), Absent('a'), Absent('n'), Absent('e')]);
    assert!(is_complete(&slots));
}

#[test]
fn game_input() {
    let word = "crane".to_string();
    assert_eq!(process_input(&word, &"crane".to_string()), Ok(true));
    assert_eq!(process_input(&word, &"trace".to_string()), Ok(false));
    assert_eq!(process_input(&word, &"cranes".to_string()), Err(ProcessInputError::InvalidLength));
    assert_eq!(process_input(&word, &"".to_string()), Err(ProcessInputError::InvalidLength));
}

#[test]
fn word_list_parsing() {
    assert_eq!(
        parse_word_list("crane crate\n\ttrace  \r\n"),
        Ok(words(&["crane", "crate", "trace"]))
    );
    assert_eq!(parse_word_list(""), Ok(vec![]));
    assert_eq!(parse_word_list(" \n "), Ok(vec![]));
    assert_eq!(parse_word_list("plumb"), Ok(words(&["plumb"])));
    assert_eq!(parse_word_list("crane cr4te trace"), Err(WordListError::InvalidWord(1)));
    assert_eq!(parse_word_list("crane crates trace"), Err(WordListError::InvalidWord(1)));
    assert_eq!(parse_word_list("crane trace abc"), Err(WordListError::InvalidWord(2)));
    assert_eq!(parse_word_list("Crane"), Err(WordListError::InvalidWord(0)));
    assert_eq!(parse_word_list("crane caf\u{e9}s"), Err(WordListError::NotAscii));
}
