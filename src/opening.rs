//! Opening guesses, made before any feedback is known.
use vstd::prelude::*;
use crate::constraint::{all_words, is_letter, is_word};
use crate::frequency::{
    cell, count_at, is_count_table, letter, letter_index, lemma_count_bounded,
    lemma_letter_is_letter, lemma_letter_round_trip, position_counts,
};
use crate::ranking::{Scored, lemma_sorted_by_score_keeps, scores_fit, sort_by_score, sorted_by_score};
use crate::text::push_char;
use rand::Rng;

verus! {

/// The heuristics for choosing an opening guess.
#[derive(Clone, Copy, Debug, PartialEq, Eq, Hash, Structural)]
pub enum Strategy {
    /// The five letters that occur most often over the whole list.
    FrequencySimple,
    /// At each position, the letter that occurs there most often.
    FrequencyPositionAware,
    /// Five letters drawn at random.
    Random,
}

/// `c` is the most frequent letter at position `i`, the earliest in the
/// alphabet among equally frequent ones.
pub open spec fn best_at(ws: Seq<String>, i: int, c: char) -> bool {
    &&& is_letter(c)
    &&& forall|e: char| is_letter(e) ==> #[trigger] count_at(ws, i, e) <= count_at(ws, i, c)
    &&& forall|e: char| is_letter(e) && e < c ==> #[trigger] count_at(ws, i, e) < count_at(ws, i, c)
}

/// How often `c` occurs over all positions of all words.
pub open spec fn letter_total(ws: Seq<String>, c: char) -> nat {
    count_at(ws, 0, c) + count_at(ws, 1, c) + count_at(ws, 2, c) + count_at(ws, 3, c) + count_at(
        ws,
        4,
        c,
    )
}

/// Each letter of the alphabet, in order, with its total count.
pub open spec fn tallies(ws: Seq<String>) -> Seq<Scored<char>> {
    Seq::new(26, |d: int| Scored { item: letter(d), score: letter_total(ws, letter(d)) as usize })
}

/// The five letters with the highest totals, most frequent first; equal
/// totals keep alphabetical order.
pub open spec fn top_letters(ws: Seq<String>) -> Seq<char> {
    Seq::new(5, |j: int| sorted_by_score(tallies(ws))[j].item)
}

/// What an opening guess `g` made by strategy `s` over `ws` is.
pub open spec fn opening_for(ws: Seq<String>, s: Strategy, g: Seq<char>) -> bool {
    &&& is_word(g)
    &&& match s {
        Strategy::FrequencyPositionAware => forall|i: int| 0 <= i < 5 ==> best_at(ws, i, #[trigger] g[i]),
        Strategy::FrequencySimple => g == top_letters(ws),
        Strategy::Random => true,
    }
}

/// Relies on rand's `thread_rng().gen_range(lo..=hi)`: a character between
/// the two bounds, both included.
#[verifier::external_body]
fn random_char_between(lo: char, hi: char) -> (c: char)
    requires
        lo <= hi,
    ensures
        lo <= c <= hi,
{
    rand::thread_rng().gen_range(lo..=hi)
}

/// The letter with index `d` in the alphabet.
fn letter_at(d: usize) -> (c: char)
    requires
        d < 26,
    ensures
        c == letter(d as int),
        is_letter(c),
{
    proof {
        lemma_letter_is_letter(d as int);
    }
    ((d as u8) + 97) as char
}

/// At each position, the letter that occurs there most often.
fn position_aware_guess(words: &Vec<String>) -> (g: String)
    requires
        all_words(words@),
    ensures
        is_word(g@),
        forall|i: int| 0 <= i < 5 ==> best_at(words@, i, #[trigger] g@[i]),
{
    let table = position_counts(words);
    let mut guess = String::new();
    let mut i: usize = 0;
    while i < 5
        invariant
            is_count_table(table@, words@),
            i <= 5,
            guess@.len() == i,
            forall|p: int| 0 <= p < i ==> is_letter(#[trigger] guess@[p]),
            forall|p: int| 0 <= p < i ==> best_at(words@, p, #[trigger] guess@[p]),
        decreases 5 - i,
    {
        let mut max: usize = 0;
        let mut max_index: usize = 0;
        let mut d: usize = 0;
        while d < 26
            invariant
                is_count_table(table@, words@),
                i < 5,
                d <= 26,
                max_index < 26,
                max_index <= d,
                d == 0 ==> max == 0 && max_index == 0,
                d > 0 ==> max == table@[cell(i as int, max_index as int)],
                forall|e: int| 0 <= e < d ==> #[trigger] table@[cell(i as int, e)] <= max,
                forall|e: int| 0 <= e < max_index ==> #[trigger] table@[cell(i as int, e)] < max,
            decreases 26 - d,
        {
            let count = table[i * 26 + d];
            if count > max {
                max = count;
                max_index = d;
            }
            d = d + 1;
        }
        let c = letter_at(max_index);
        proof {
            assert forall|e: char| is_letter(e) implies #[trigger] count_at(words@, i as int, e)
                <= count_at(words@, i as int, c) by {
                lemma_letter_round_trip(e);
                assert(table@[cell(i as int, letter_index(e))] <= max);
            }
            assert forall|e: char| is_letter(e) && e < c implies #[trigger] count_at(
                words@,
                i as int,
                e,
            ) < count_at(words@, i as int, c) by {
                lemma_letter_round_trip(e);
                assert(table@[cell(i as int, letter_index(e))] < max);
            }
        }
        push_char(&mut guess, c);
        i = i + 1;
    }
    guess
}

/// The five letters with the highest totals over the whole list.
fn simple_guess(words: &Vec<String>) -> (g: String)
    requires
        all_words(words@),
        scores_fit(words@.len() as int),
    ensures
        is_word(g@),
        g@ == top_letters(words@),
{
    let table = position_counts(words);
    let mut counts: Vec<Scored<char>> = Vec::new();
    let mut d: usize = 0;
    while d < 26
        invariant
            is_count_table(table@, words@),
            scores_fit(words@.len() as int),
            d <= 26,
            counts@ == tallies(words@).subrange(0, d as int),
        decreases 26 - d,
    {
        let c = letter_at(d);
        let mut total: usize = 0;
        let mut i: usize = 0;
        while i < 5
            invariant
                is_count_table(table@, words@),
                scores_fit(words@.len() as int),
                d < 26,
                i <= 5,
                c == letter(d as int),
                total as int == (if i > 0 { count_at(words@, 0, c) as int } else { 0 })
                    + (if i > 1 { count_at(words@, 1, c) as int } else { 0 })
                    + (if i > 2 { count_at(words@, 2, c) as int } else { 0 })
                    + (if i > 3 { count_at(words@, 3, c) as int } else { 0 })
                    + (if i > 4 { count_at(words@, 4, c) as int } else { 0 }),
                total <= i * words@.len(),
            decreases 5 - i,
        {
            proof {
                lemma_count_bounded(words@, i as int, c);
                assert(table@[cell(i as int, d as int)] == count_at(words@, i as int, c));
            }
            total = total + table[i * 26 + d];
            i = i + 1;
        }
        counts.push(Scored { item: c, score: total });
        proof {
            assert(counts@ =~= tallies(words@).subrange(0, d + 1));
        }
        d = d + 1;
    }
    assert(counts@ =~= tallies(words@));
    let sorted = sort_by_score(counts);
    proof {
        lemma_sorted_by_score_keeps(tallies(words@));
    }
    let mut guess = String::new();
    let mut j: usize = 0;
    while j < 5
        invariant
            sorted@ == sorted_by_score(tallies(words@)),
            sorted@.len() == 26,
            forall|y: Scored<char>| #[trigger] sorted@.contains(y) <==> tallies(words@).contains(y),
            j <= 5,
            guess@ == top_letters(words@).subrange(0, j as int),
        decreases 5 - j,
    {
        push_char(&mut guess, sorted[j].item);
        proof {
            assert(guess@ =~= top_letters(words@).subrange(0, j + 1));
        }
        j = j + 1;
    }
    proof {
        assert(guess@ =~= top_letters(words@));
        assert forall|p: int| 0 <= p < 5 implies is_letter(#[trigger] guess@[p]) by {
            assert(sorted@.contains(sorted@[p]));
            let t = tallies(words@);
            let d = choose|d: int| 0 <= d < t.len() && t[d] == sorted@[p];
            lemma_letter_is_letter(d);
        }
    }
    guess
}

/// Five letters drawn uniformly at random.
fn random_guess() -> (g: String)
    ensures
        is_word(g@),
{
    let mut guess = String::new();
    let mut j: usize = 0;
    while j < 5
        invariant
            j <= 5,
            guess@.len() == j,
            forall|p: int| 0 <= p < j ==> is_letter(#[trigger] guess@[p]),
        decreases 5 - j,
    {
        let c = random_char_between('a', 'z');
        push_char(&mut guess, c);
        j = j + 1;
    }
    guess
}

/// The opening guess that `strategy` makes for the word list: five letters,
/// not necessarily a word of the list.
pub fn get_first_guess(words: &Vec<String>, strategy: Strategy) -> (g: String)
    requires
        all_words(words@),
        scores_fit(words@.len() as int),
    ensures
        opening_for(words@, strategy, g@),
{
    match strategy {
        Strategy::FrequencyPositionAware => position_aware_guess(words),
        Strategy::FrequencySimple => simple_guess(words),
        Strategy::Random => random_guess(),
    }
}

} // verus!
