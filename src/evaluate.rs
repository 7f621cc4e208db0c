//! Replaying the whole word list to measure and choose an opening strategy.
use vstd::prelude::*;
use crate::constraint::{
    GuessResult, LetterConstraint, all_words, calculate_guess_result, committed_history, feedback,
    is_word,
};
use crate::filter::{filter_using_known_info, lemma_filter_sound, lemma_surviving_words, surviving};
use crate::opening::{Strategy, get_first_guess, opening_for};
use crate::ranking::{lemma_sorted_by_score_keeps, optimise_results, ranked, scored_candidates, scores_fit};
use rayon::prelude::{IndexedParallelIterator, IntoParallelRefIterator, ParallelIterator};

verus! {

/// The number of guesses allowed for one word.
pub const GUESS_BUDGET: usize = 5;

/// The guess result whose positions are `s`.
pub open spec fn guess_result(s: Seq<LetterConstraint>) -> GuessResult {
    choose|g: GuessResult| g.slots@ == s
}

/// The guess that follows history `h`: the best-ranked word of the list that
/// survives it.
pub open spec fn next_guess(ws: Seq<String>, h: Seq<GuessResult>) -> Seq<char> {
    ranked(surviving(ws, h), h)[0].item@
}

/// Whether, after history `h`, guessing `guess` and then always the best-ranked
/// survivor finds `target` within `budget` more guesses.
pub open spec fn solves_within(
    ws: Seq<String>,
    target: Seq<char>,
    h: Seq<GuessResult>,
    guess: Seq<char>,
    budget: nat,
) -> bool
    decreases budget,
{
    if budget == 0 {
        false
    } else {
        let h2 = h.push(guess_result(feedback(guess, target)));
        let top = next_guess(ws, h2);
        top == target || solves_within(ws, target, h2, top, (budget - 1) as nat)
    }
}

/// Whether the opening guess leads to `target` within the guess budget.
pub open spec fn solves(ws: Seq<String>, target: Seq<char>, opening: Seq<char>) -> bool {
    solves_within(ws, target, Seq::empty(), opening, GUESS_BUDGET as nat)
}

/// How many words of the list the opening guess solves within the budget.
pub open spec fn solved_count(ws: Seq<String>, opening: Seq<char>) -> nat {
    ws.filter(|t: String| solves(ws, t@, opening)).len()
}

/// A guess result is the one named by its own positions.
proof fn lemma_guess_result_is(g: GuessResult, s: Seq<LetterConstraint>)
    requires
        g.slots@ == s,
    ensures
        guess_result(s) == g,
{
    let c = guess_result(s);
    assert(c.slots@ =~= g.slots@);
    assert(c.slots == g.slots);
}

/// Plays one game against `target`, starting with `opening` and then always
/// guessing the best-ranked surviving word; true when it finds the target
/// within the budget.
pub fn simulate_target(words: &Vec<String>, target: &String, opening: &String) -> (r: bool)
    requires
        all_words(words@),
        words@.contains(*target),
        opening@.len() == 5,
        scores_fit(words@.len() as int),
    ensures
        r == solves(words@, target@, opening@),
{
    assert(is_word(target@));
    let mut hist: Vec<GuessResult> = Vec::new();
    let mut guess = opening.clone();
    let mut budget: usize = GUESS_BUDGET;
    let ghost mut guesses: Seq<Seq<char>> = Seq::empty();
    while budget > 0
        invariant
            all_words(words@),
            words@.contains(*target),
            is_word(target@),
            scores_fit(words@.len() as int),
            committed_history(hist@),
            guesses.len() == hist@.len(),
            forall|k: int| 0 <= k < hist@.len() ==> (#[trigger] guesses[k]).len() == 5,
            forall|k: int|
                0 <= k < hist@.len() ==> (#[trigger] hist@[k]).slots@ == feedback(
                    guesses[k],
                    target@,
                ),
            guess@.len() == 5,
            solves(words@, target@, opening@) == solves_within(
                words@,
                target@,
                hist@,
                guess@,
                budget as nat,
            ),
        decreases budget,
    {
        let fb = calculate_guess_result(target, &guess);
        let ghost old_hist = hist@;
        proof {
            lemma_guess_result_is(fb, feedback(guess@, target@));
        }
        hist.push(fb);
        proof {
            guesses = guesses.push(guess@);
            assert(hist@ == old_hist.push(guess_result(feedback(guess@, target@))));
            lemma_surviving_words(words@, hist@);
            lemma_filter_sound(words@, *target, guesses, hist@);
        }
        let pool = filter_using_known_info(words, &hist);
        let order = optimise_results(&pool, &hist);
        proof {
            lemma_sorted_by_score_keeps(scored_candidates(pool@, hist@));
            assert(pool@.len() > 0);
            let sc = scored_candidates(pool@, hist@);
            assert(order@.len() > 0);
            assert(order@.contains(order@[0]));
            assert(sc.contains(order@[0]));
            let k = choose|k: int| 0 <= k < sc.len() && sc[k] == order@[0];
            assert(order@[0].item == pool@[k]);
            assert(is_word(pool@[k]@));
        }
        if order[0].item == *target {
            return true;
        }
        budget = budget - 1;
        guess = order[0].item.clone();
    }
    false
}

/// Relies on rayon's `par_iter().map(..).collect_into_vec(..)`: the vector
/// holds the mapped value of each word, at that word's index.
#[verifier::external_body]
fn simulate_all(words: &Vec<String>, opening: &String) -> (r: Vec<bool>)
    requires
        all_words(words@),
        opening@.len() == 5,
        scores_fit(words@.len() as int),
    ensures
        r@.len() == words@.len(),
        forall|k: int| 0 <= k < r@.len() ==> #[trigger] r@[k] == solves(words@, words@[k]@, opening@),
{
    let mut out = Vec::new();
    words.par_iter().map(|t| simulate_target(words, t, opening)).collect_into_vec(&mut out);
    out
}

/// Counts the entries that are true.
fn count_solved(words: &Vec<String>, opening: &String, solved: &Vec<bool>) -> (n: usize)
    requires
        solved@.len() == words@.len(),
        forall|k: int|
            0 <= k < solved@.len() ==> #[trigger] solved@[k] == solves(words@, words@[k]@, opening@),
    ensures
        n == solved_count(words@, opening@),
        n <= words@.len(),
{
    let mut n: usize = 0;
    let mut k: usize = 0;
    while k < solved.len()
        invariant
            solved@.len() == words@.len(),
            forall|j: int|
                0 <= j < solved@.len() ==> #[trigger] solved@[j] == solves(words@, words@[j]@, opening@),
            k <= words@.len(),
            n == words@.subrange(0, k as int).filter(|t: String| solves(words@, t@, opening@)).len(),
            n <= k,
        decreases words@.len() - k,
    {
        proof {
            reveal(Seq::filter);
            assert(words@.subrange(0, k + 1).drop_last() =~= words@.subrange(0, k as int));
            assert(words@.subrange(0, k + 1).last() == words@[k as int]);
        }
        if solved[k] {
            n = n + 1;
        }
        k = k + 1;
    }
    assert(words@.subrange(0, words@.len() as int) =~= words@);
    n
}

/// Plays the whole list with the opening guess of `strategy`: returns how many
/// words it solves within the budget, and the opening guess.
pub fn test_strategy(words: &Vec<String>, strategy: Strategy) -> (r: (usize, String))
    requires
        all_words(words@),
        scores_fit(words@.len() as int),
    ensures
        opening_for(words@, strategy, r.1@),
        r.0 == solved_count(words@, r.1@),
        r.0 <= words@.len(),
{
    let guess = get_first_guess(words, strategy);
    let solved = simulate_all(words, &guess);
    let n = count_solved(words, &guess, &solved);
    (n, guess)
}

/// How one strategy fared over the word list.
#[derive(Clone, Debug)]
pub struct StrategyOutcome {
    pub strategy: Strategy,
    pub solved: usize,
    pub opening: String,
}

/// The strategy chosen for a word list, with the outcome of every strategy tried.
#[derive(Clone, Debug)]
pub struct Selection {
    pub strategy: Strategy,
    pub opening: String,
    pub outcomes: Vec<StrategyOutcome>,
}

/// The order in which strategies are tried; on equal counts the earlier one wins.
pub open spec fn strategy_order() -> Seq<Strategy> {
    seq![Strategy::FrequencyPositionAware, Strategy::FrequencySimple, Strategy::Random]
}

/// Entry `w` solved the most words, and every earlier entry solved fewer.
pub open spec fn is_winner(os: Seq<StrategyOutcome>, w: int) -> bool {
    &&& 0 <= w < os.len()
    &&& forall|j: int| 0 <= j < os.len() ==> (#[trigger] os[j]).solved <= os[w].solved
    &&& forall|j: int| 0 <= j < w ==> (#[trigger] os[j]).solved < os[w].solved
}

/// The index of the first outcome with the highest count.
pub fn pick_winner(outcomes: &Vec<StrategyOutcome>) -> (w: usize)
    requires
        outcomes@.len() > 0,
    ensures
        is_winner(outcomes@, w as int),
{
    let mut w: usize = 0;
    let mut k: usize = 1;
    while k < outcomes.len()
        invariant
            outcomes@.len() > 0,
            1 <= k <= outcomes@.len(),
            w < k,
            forall|j: int| 0 <= j < k ==> (#[trigger] outcomes@[j]).solved <= outcomes@[w as int].solved,
            forall|j: int| 0 <= j < w ==> (#[trigger] outcomes@[j]).solved < outcomes@[w as int].solved,
        decreases outcomes@.len() - k,
    {
        if outcomes[k].solved > outcomes[w].solved {
            w = k;
        }
        k = k + 1;
    }
    w
}

/// Tries every strategy over the whole list and keeps the one that solves the
/// most words; on equal counts the position-aware strategy wins over the
/// simple one, and both over the random one.
pub fn choose_optimal_strategy(words: &Vec<String>) -> (r: Selection)
    requires
        all_words(words@),
        scores_fit(words@.len() as int),
    ensures
        r.outcomes@.len() == 3,
        forall|j: int| 0 <= j < 3 ==> (#[trigger] r.outcomes@[j]).strategy == strategy_order()[j],
        forall|j: int|
            0 <= j < 3 ==> opening_for(
                words@,
                (#[trigger] r.outcomes@[j]).strategy,
                r.outcomes@[j].opening@,
            ),
        forall|j: int|
            0 <= j < 3 ==> (#[trigger] r.outcomes@[j]).solved == solved_count(
                words@,
                r.outcomes@[j].opening@,
            ),
        forall|j: int| 0 <= j < 3 ==> (#[trigger] r.outcomes@[j]).solved <= words@.len(),
        exists|w: int|
            #[trigger] is_winner(r.outcomes@, w) && r.strategy == r.outcomes@[w].strategy
                && r.opening == r.outcomes@[w].opening,
{
    let order = [Strategy::FrequencyPositionAware, Strategy::FrequencySimple, Strategy::Random];
    let mut outcomes: Vec<StrategyOutcome> = Vec::new();
    let mut j: usize = 0;
    while j < 3
        invariant
            all_words(words@),
            scores_fit(words@.len() as int),
            order@ == strategy_order(),
            j <= 3,
            outcomes@.len() == j,
            forall|p: int| 0 <= p < j ==> (#[trigger] outcomes@[p]).strategy == strategy_order()[p],
            forall|p: int|
                0 <= p < j ==> opening_for(
                    words@,
                    (#[trigger] outcomes@[p]).strategy,
                    outcomes@[p].opening@,
                ),
            forall|p: int|
                0 <= p < j ==> (#[trigger] outcomes@[p]).solved == solved_count(
                    words@,
                    outcomes@[p].opening@,
                ),
            forall|p: int| 0 <= p < j ==> (#[trigger] outcomes@[p]).solved <= words@.len(),
        decreases 3 - j,
    {
        let s = order[j];
        let (solved, opening) = test_strategy(words, s);
        outcomes.push(StrategyOutcome { strategy: s, solved, opening });
        j = j + 1;
    }
    let w = pick_winner(&outcomes);
    let strategy = outcomes[w].strategy;
    let opening = outcomes[w].opening.clone();
    Selection { strategy, opening, outcomes }
}

} // verus!
