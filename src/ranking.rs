//! Ranking candidates by how well their letters fill the still-uncertain positions.
use vstd::prelude::*;
use crate::constraint::{GuessResult, all_words, committed_history, is_word};
use crate::frequency::{
    count_at, is_count_table, cell, lemma_count_bounded, lemma_letter_round_trip,
    position_counts,
};

verus! {

/// An item paired with a score; a higher score ranks first.
#[derive(Clone, Debug)]
pub struct Scored<T> {
    pub item: T,
    pub score: usize,
}

/// A candidate word with its score.
pub type ScoredWord = Scored<String>;

/// Places `x` after every element that scores strictly higher and before
/// the rest.
pub open spec fn insert_ranked<T>(x: Scored<T>, s: Seq<Scored<T>>) -> Seq<Scored<T>>
    decreases s.len(),
{
    if s.len() == 0 {
        seq![x]
    } else if s[0].score <= x.score {
        seq![x] + s
    } else {
        seq![s[0]] + insert_ranked(x, s.drop_first())
    }
}

/// The stable sort by descending score: higher scores first, and equal scores
/// in their original order.
pub open spec fn sorted_by_score<T>(s: Seq<Scored<T>>) -> Seq<Scored<T>>
    decreases s.len(),
{
    if s.len() == 0 {
        s
    } else {
        insert_ranked(s[0], sorted_by_score(s.drop_first()))
    }
}

/// Inserting by rank places the item at the first position whose score is
/// not higher than its own.
proof fn lemma_insert_ranked_at<T>(x: Scored<T>, s: Seq<Scored<T>>, p: int)
    requires
        0 <= p <= s.len(),
        forall|j: int| 0 <= j < p ==> (#[trigger] s[j]).score > x.score,
        p == s.len() || s[p].score <= x.score,
    ensures
        insert_ranked(x, s) == s.insert(p, x),
    decreases p,
{
    if p == 0 {
        assert(insert_ranked(x, s) =~= s.insert(0, x));
    } else {
        let rest = s.drop_first();
        assert forall|j: int| 0 <= j < p - 1 implies (#[trigger] rest[j]).score > x.score by {
            assert(rest[j] == s[j + 1]);
        }
        lemma_insert_ranked_at(x, rest, p - 1);
        assert(seq![s[0]] + rest.insert(p - 1, x) =~= s.insert(p, x));
    }
}

/// Inserting by rank adds exactly the one item.
pub proof fn lemma_insert_ranked_len<T>(x: Scored<T>, s: Seq<Scored<T>>)
    ensures
        insert_ranked(x, s).len() == s.len() + 1,
        forall|y: Scored<T>| #[trigger] insert_ranked(x, s).contains(y) <==> (y == x || s.contains(
            y,
        )),
    decreases s.len(),
{
    if s.len() > 0 {
        lemma_insert_ranked_len(x, s.drop_first());
        let rest = s.drop_first();
        assert(s =~= seq![s[0]] + rest);
        if s[0].score <= x.score {
            assert forall|y: Scored<T>| #[trigger] insert_ranked(x, s).contains(y) <==> (y == x
                || s.contains(y)) by {
                if y == x {
                    assert(insert_ranked(x, s)[0] == x);
                }
                if s.contains(y) {
                    let j = choose|j: int| 0 <= j < s.len() && s[j] == y;
                    assert(insert_ranked(x, s)[j + 1] == y);
                }
                if insert_ranked(x, s).contains(y) && y != x {
                    let j = choose|j: int| 0 <= j < insert_ranked(x, s).len() && insert_ranked(x, s)[j] == y;
                    assert(s[j - 1] == y);
                }
            }
        } else {
            let tail = insert_ranked(x, rest);
            assert forall|y: Scored<T>| #[trigger] insert_ranked(x, s).contains(y) <==> (y == x
                || s.contains(y)) by {
                if y == x {
                    assert(tail.contains(x));
                    let j = choose|j: int| 0 <= j < tail.len() && tail[j] == x;
                    assert(insert_ranked(x, s)[j + 1] == x);
                }
                if s.contains(y) {
                    let j = choose|j: int| 0 <= j < s.len() && s[j] == y;
                    if j == 0 {
                        assert(insert_ranked(x, s)[0] == y);
                    } else {
                        assert(rest[j - 1] == y);
                        assert(tail.contains(y));
                        let m = choose|m: int| 0 <= m < tail.len() && tail[m] == y;
                        assert(insert_ranked(x, s)[m + 1] == y);
                    }
                }
                if insert_ranked(x, s).contains(y) && y != x {
                    let j = choose|j: int| 0 <= j < insert_ranked(x, s).len() && insert_ranked(x, s)[j] == y;
                    if j == 0 {
                        assert(s[0] == y);
                    } else {
                        assert(tail[j - 1] == y);
                        assert(tail.contains(y));
                        assert(rest.contains(y));
                        let m = choose|m: int| 0 <= m < rest.len() && rest[m] == y;
                        assert(s[m + 1] == y);
                    }
                }
            }
        }
    } else {
        assert(insert_ranked(x, s) =~= seq![x]);
        assert(insert_ranked(x, s)[0] == x);
    }
}

/// Sorting keeps every element and adds none.
pub proof fn lemma_sorted_by_score_keeps<T>(s: Seq<Scored<T>>)
    ensures
        sorted_by_score(s).len() == s.len(),
        forall|y: Scored<T>| #[trigger] sorted_by_score(s).contains(y) <==> s.contains(y),
    decreases s.len(),
{
    if s.len() > 0 {
        let rest = s.drop_first();
        lemma_sorted_by_score_keeps(rest);
        lemma_insert_ranked_len(s[0], sorted_by_score(rest));
        assert forall|y: Scored<T>| #[trigger] sorted_by_score(s).contains(y) <==> s.contains(
            y,
        ) by {
            if s.contains(y) && y != s[0] {
                let j = choose|j: int| 0 <= j < s.len() && s[j] == y;
                assert(rest[j - 1] == y);
            }
            if rest.contains(y) {
                let j = choose|j: int| 0 <= j < rest.len() && rest[j] == y;
                assert(s[j + 1] == y);
            }
        }
    }
}

/// Sorts by descending score; items with equal scores keep their relative order.
pub fn sort_by_score<T>(v: Vec<Scored<T>>) -> (r: Vec<Scored<T>>)
    ensures
        r@ == sorted_by_score(v@),
{
    let ghost orig = v@;
    let mut v = v;
    let mut out: Vec<Scored<T>> = Vec::new();
    assert(orig.subrange(orig.len() as int, orig.len() as int) =~= Seq::<Scored<T>>::empty());
    while v.len() > 0
        invariant
            v@.len() <= orig.len(),
            v@ == orig.subrange(0, v@.len() as int),
            out@ == sorted_by_score(orig.subrange(v@.len() as int, orig.len() as int)),
        decreases v@.len(),
    {
        let ghost rest = orig.subrange(v@.len() as int, orig.len() as int);
        let ghost before = v@;
        let x = v.pop().unwrap();
        assert(x == orig[v@.len() as int]) by {
            assert(before.last() == orig[before.len() - 1]);
        }
        assert(v@ =~= orig.subrange(0, v@.len() as int));
        let mut p: usize = 0;
        while p < out.len() && out[p].score > x.score
            invariant
                p <= out@.len(),
                forall|j: int| 0 <= j < p ==> (#[trigger] out@[j]).score > x.score,
            decreases out@.len() - p,
        {
            p = p + 1;
        }
        proof {
            lemma_insert_ranked_at(x, out@, p as int);
            let now = orig.subrange(v@.len() as int, orig.len() as int);
            assert(now.drop_first() =~= rest);
            assert(now[0] == x);
        }
        out.insert(p, x);
    }
    assert(orig.subrange(0, orig.len() as int) =~= orig);
    out
}

/// Position `i` has only ever been reported `Misplaced`, so its letter is still open.
pub open spec fn open_position(h: Seq<GuessResult>, i: int) -> bool {
    forall|k: int| 0 <= k < h.len() ==> (#[trigger] h[k]).slot(i) is Misplaced
}

/// What position `i` of word `w` adds to its score.
pub open spec fn position_weight(ws: Seq<String>, h: Seq<GuessResult>, w: Seq<char>, i: int) -> nat {
    if open_position(h, i) {
        count_at(ws, i, w[i])
    } else {
        0
    }
}

/// The score of `w` among the candidates `ws`: one, plus for each open
/// position the number of candidates that hold `w`'s letter there.
pub open spec fn word_score(ws: Seq<String>, h: Seq<GuessResult>, w: Seq<char>) -> nat {
    1 + position_weight(ws, h, w, 0) + position_weight(ws, h, w, 1) + position_weight(ws, h, w, 2)
        + position_weight(ws, h, w, 3) + position_weight(ws, h, w, 4)
}

/// Each candidate with its score, in the candidates' order.
pub open spec fn scored_candidates(ws: Seq<String>, h: Seq<GuessResult>) -> Seq<ScoredWord> {
    Seq::new(ws.len(), |k: int| Scored { item: ws[k], score: word_score(ws, h, ws[k]@) as usize })
}

/// The candidates ranked by score, best first.
pub open spec fn ranked(ws: Seq<String>, h: Seq<GuessResult>) -> Seq<ScoredWord> {
    sorted_by_score(scored_candidates(ws, h))
}

/// Scores of a list of this length fit in a `usize`.
pub open spec fn scores_fit(n: int) -> bool {
    5 * n + 1 <= usize::MAX
}

/// Whether every guess result of `h` is `Misplaced` at position `i`.
fn position_is_open(h: &Vec<GuessResult>, i: usize) -> (r: bool)
    requires
        i < 5,
    ensures
        r == open_position(h@, i as int),
{
    let mut k: usize = 0;
    while k < h.len()
        invariant
            i < 5,
            k <= h@.len(),
            forall|j: int| 0 <= j < k ==> (#[trigger] h@[j]).slot(i as int) is Misplaced,
        decreases h@.len() - k,
    {
        match h[k].slots[i] {
            crate::constraint::LetterConstraint::Misplaced(_) => {},
            _ => {
                return false;
            },
        }
        k = k + 1;
    }
    true
}

/// Scores every candidate by positional letter frequency over the open
/// positions, then ranks them best first, keeping the original order among
/// equal scores.
pub fn optimise_results(results: &Vec<String>, known_info: &Vec<GuessResult>) -> (r: Vec<ScoredWord>)
    requires
        all_words(results@),
        committed_history(known_info@),
        scores_fit(results@.len() as int),
    ensures
        r@ == ranked(results@, known_info@),
{
    let mut scored: Vec<ScoredWord> = Vec::new();
    if results.len() == 0 {
        proof {
            assert(scored_candidates(results@, known_info@) =~= Seq::<ScoredWord>::empty());
        }
        return scored;
    }
    let table = position_counts(results);
    let mut open: [bool; 5] = [false; 5];
    let mut i: usize = 0;
    while i < 5
        invariant
            i <= 5,
            forall|j: int| 0 <= j < i ==> open@[j] == open_position(known_info@, j),
        decreases 5 - i,
    {
        open[i] = position_is_open(known_info, i);
        i = i + 1;
    }
    let ghost ws = results@;
    let ghost h = known_info@;
    let mut k: usize = 0;
    while k < results.len()
        invariant
            ws == results@,
            h == known_info@,
            all_words(ws),
            scores_fit(ws.len() as int),
            is_count_table(table@, ws),
            forall|j: int| 0 <= j < 5 ==> open@[j] == open_position(h, j),
            k <= ws.len(),
            scored@ == scored_candidates(ws, h).subrange(0, k as int),
        decreases ws.len() - k,
    {
        let w = results[k].as_str();
        assert(is_word(ws[k as int]@));
        let mut score: usize = 1;
        let mut i: usize = 0;
        while i < 5
            invariant
                w@ == ws[k as int]@,
                is_word(w@),
                is_count_table(table@, ws),
                forall|j: int| 0 <= j < 5 ==> open@[j] == open_position(h, j),
                scores_fit(ws.len() as int),
                i <= 5,
                score as int == 1 + (if i > 0 { position_weight(ws, h, w@, 0) as int } else { 0 })
                    + (if i > 1 { position_weight(ws, h, w@, 1) as int } else { 0 })
                    + (if i > 2 { position_weight(ws, h, w@, 2) as int } else { 0 })
                    + (if i > 3 { position_weight(ws, h, w@, 3) as int } else { 0 })
                    + (if i > 4 { position_weight(ws, h, w@, 4) as int } else { 0 }),
                score <= 1 + i * ws.len(),
            decreases 5 - i,
        {
            if open[i] {
                let c = w.get_char(i);
                let d = (c as u32 - 97) as usize;
                proof {
                    lemma_letter_round_trip(c);
                    lemma_count_bounded(ws, i as int, c);
                    assert(table@[cell(i as int, d as int)] == count_at(ws, i as int, c));
                }
                score = score + table[i * 26 + d];
            }
            i = i + 1;
        }
        proof {
            assert(score as int == word_score(ws, h, ws[k as int]@));
        }
        scored.push(Scored { item: results[k].clone(), score });
        proof {
            assert(scored@ =~= scored_candidates(ws, h).subrange(0, k + 1));
        }
        k = k + 1;
    }
    assert(scored_candidates(ws, h).subrange(0, ws.len() as int) =~= scored_candidates(ws, h));
    sort_by_score(scored)
}

} // verus!

verus! {

/// Ranking depends on nothing but the candidates and the history: the same
/// inputs always give the same ranked list.
pub proof fn lemma_ranking_deterministic(
    ws1: Seq<String>,
    h1: Seq<GuessResult>,
    ws2: Seq<String>,
    h2: Seq<GuessResult>,
)
    requires
        ws1 == ws2,
        h1 == h2,
    ensures
        ranked(ws1, h1) == ranked(ws2, h2),
{
}

/// Ranking no candidates gives an empty list, whatever the history.
pub proof fn lemma_ranking_empty(h: Seq<GuessResult>)
    ensures
        ranked(Seq::empty(), h) == Seq::<ScoredWord>::empty(),
{
    assert(scored_candidates(Seq::empty(), h) =~= Seq::<ScoredWord>::empty());
}

/// Ranking keeps every candidate, each with its score, and adds none.
pub proof fn lemma_ranking_keeps(ws: Seq<String>, h: Seq<GuessResult>)
    ensures
        ranked(ws, h).len() == ws.len(),
        forall|x: ScoredWord| #[trigger] ranked(ws, h).contains(x) <==> scored_candidates(
            ws,
            h,
        ).contains(x),
{
    lemma_sorted_by_score_keeps(scored_candidates(ws, h));
}

} // verus!

verus! {

/// Scores never increase along `s`.
pub open spec fn is_descending<T>(s: Seq<Scored<T>>) -> bool {
    forall|i: int, j: int| 0 <= i < j < s.len() ==> (#[trigger] s[i]).score >= (#[trigger] s[j]).score
}

/// Inserting by rank into a descending list keeps it descending.
proof fn lemma_insert_ranked_descending<T>(x: Scored<T>, s: Seq<Scored<T>>)
    requires
        is_descending(s),
    ensures
        is_descending(insert_ranked(x, s)),
    decreases s.len(),
{
    if s.len() > 0 {
        let rest = s.drop_first();
        if s[0].score > x.score {
            lemma_insert_ranked_descending(x, rest);
            lemma_insert_ranked_len(x, rest);
            let tail = insert_ranked(x, rest);
            let r = insert_ranked(x, s);
            assert forall|i: int, j: int| 0 <= i < j < r.len() implies (#[trigger] r[i]).score >= (
            #[trigger] r[j]).score by {
                if i == 0 {
                    assert(r[j] == tail[j - 1]);
                    assert(tail.contains(tail[j - 1]));
                    if tail[j - 1] != x {
                        let m = choose|m: int| 0 <= m < rest.len() && rest[m] == tail[j - 1];
                        assert(s[m + 1] == rest[m]);
                    }
                } else {
                    assert(r[i] == tail[i - 1]);
                    assert(r[j] == tail[j - 1]);
                }
            }
        }
    }
}

/// The ranked order is descending: no candidate scores higher than one
/// ranked before it.
pub proof fn lemma_ranking_descending(ws: Seq<String>, h: Seq<GuessResult>)
    ensures
        is_descending(ranked(ws, h)),
{
    lemma_sorted_descending(scored_candidates(ws, h));
}

/// The stable sort by score yields descending scores.
pub proof fn lemma_sorted_descending<T>(s: Seq<Scored<T>>)
    ensures
        is_descending(sorted_by_score(s)),
    decreases s.len(),
{
    if s.len() > 0 {
        lemma_sorted_descending(s.drop_first());
        lemma_insert_ranked_descending(s[0], sorted_by_score(s.drop_first()));
    }
}

} // verus!
