//! Narrowing a candidate list to the words that agree with a history.
use vstd::prelude::*;
use crate::constraint::{
    GuessResult, LetterConstraint, all_words, committed_history, consistent, feedback, is_word,
    satisfies, slot_allows, word_consistent,
};

verus! {

/// The candidates, in their order, that agree with every guess result of `h`.
pub open spec fn surviving(ws: Seq<String>, h: Seq<GuessResult>) -> Seq<String> {
    ws.filter(|w: String| consistent(w@, h))
}

/// Keeps exactly the words that agree with every guess result of `known_info`,
/// in their original order.
pub fn filter_using_known_info(words: &Vec<String>, known_info: &Vec<GuessResult>) -> (r: Vec<
    String,
>)
    requires
        all_words(words@),
        committed_history(known_info@),
    ensures
        r@ == surviving(words@, known_info@),
{
    let mut out: Vec<String> = Vec::new();
    let mut k: usize = 0;
    while k < words.len()
        invariant
            all_words(words@),
            k <= words@.len(),
            out@ == surviving(words@.subrange(0, k as int), known_info@),
        decreases words@.len() - k,
    {
        let keep = word_consistent(&words[k], known_info);
        proof {
            reveal(Seq::filter);
            assert(words@.subrange(0, k + 1).drop_last() =~= words@.subrange(0, k as int));
            assert(words@.subrange(0, k + 1).last() == words@[k as int]);
            assert(consistent(words@[k as int]@, known_info@) == keep);
        }
        if keep {
            out.push(words[k].clone());
        }
        k = k + 1;
    }
    assert(words@.subrange(0, words@.len() as int) =~= words@);
    out
}

/// Filtering a sequence whose every element already passes leaves it unchanged.
proof fn lemma_filter_all_pass(s: Seq<String>, p: spec_fn(String) -> bool)
    requires
        forall|k: int| 0 <= k < s.len() ==> p(#[trigger] s[k]),
    ensures
        s.filter(p) == s,
    decreases s.len(),
{
    reveal(Seq::filter);
    if s.len() > 0 {
        lemma_filter_all_pass(s.drop_last(), p);
        assert(s.drop_last().push(s.last()) =~= s);
    }
}

/// Filtering by one predicate and then another is filtering by both.
proof fn lemma_filter_twice(s: Seq<String>, p: spec_fn(String) -> bool, q: spec_fn(String) -> bool)
    ensures
        s.filter(p).filter(q) == s.filter(|w: String| p(w) && q(w)),
    decreases s.len(),
{
    reveal(Seq::filter);
    if s.len() > 0 {
        lemma_filter_twice(s.drop_last(), p, q);
        let head = s.drop_last().filter(p);
        if p(s.last()) {
            assert(head.push(s.last()).drop_last() =~= head);
        }
    }
}

/// Every word that survives a history was among the candidates, and adding one
/// more guess result to the history keeps only words that survived before it.
pub proof fn lemma_filter_narrows(ws: Seq<String>, h: Seq<GuessResult>, g: GuessResult)
    ensures
        forall|w: String| #[trigger] surviving(ws, h).contains(w) ==> ws.contains(w),
        surviving(ws, h.push(g)) == surviving(ws, h).filter(|w: String| satisfies(w@, g)),
        forall|w: String|
            #[trigger] surviving(ws, h.push(g)).contains(w) ==> surviving(ws, h).contains(w),
        surviving(ws, h.push(g)).len() <= surviving(ws, h).len(),
{
    let hp = h.push(g);
    let p = |w: String| consistent(w@, h);
    let q = |w: String| satisfies(w@, g);
    assert forall|w: String| #[trigger] surviving(ws, h).contains(w) implies ws.contains(w) by {
        ws.lemma_filter_contains_rev(p, w);
    }
    lemma_filter_twice(ws, p, q);
    let both = |w: String| p(w) && q(w);
    let pp = |w: String| consistent(w@, hp);
    assert forall|w: String| #[trigger] pp(w) == both(w) by {
        if both(w) {
            assert forall|k: int| 0 <= k < hp.len() implies #[trigger] satisfies(w@, hp[k]) by {
                if k < h.len() {
                    assert(hp[k] == h[k]);
                }
            }
        }
        if pp(w) {
            assert forall|k: int| 0 <= k < h.len() implies #[trigger] satisfies(w@, h[k]) by {
                assert(hp[k] == h[k]);
                assert(satisfies(w@, hp[k]));
            }
            assert(satisfies(w@, hp[h.len() as int]));
        }
    }
    assert(pp =~= both);
    assert forall|w: String| #[trigger] surviving(ws, hp).contains(w) implies surviving(
        ws,
        h,
    ).contains(w) by {
        surviving(ws, h).lemma_filter_contains_rev(q, w);
    }
    surviving(ws, h).lemma_filter_len(q);
}

/// Filtering a second time by the same history changes nothing.
pub proof fn lemma_filter_idempotent(ws: Seq<String>, h: Seq<GuessResult>)
    ensures
        surviving(surviving(ws, h), h) == surviving(ws, h),
{
    let p = |w: String| consistent(w@, h);
    let s = surviving(ws, h);
    assert forall|k: int| 0 <= k < s.len() implies p(#[trigger] s[k]) by {
        ws.lemma_filter_pred(p, k);
    }
    lemma_filter_all_pass(s, p);
}

/// The feedback that the secret word itself produced never rules that word out.
pub proof fn lemma_target_satisfies_feedback(guess: Seq<char>, target: Seq<char>, g: GuessResult)
    requires
        guess.len() == 5,
        target.len() == 5,
        g.slots@ == feedback(guess, target),
    ensures
        satisfies(target, g),
{
    assert forall|i: int| 0 <= i < 5 implies #[trigger] slot_allows(target, i, g.slot(i)) by {
        assert(g.slot(i) == feedback(guess, target)[i]);
    }
}

/// The secret word is never eliminated by feedback that was produced by
/// comparing guesses against it: if it is a candidate, it survives.
pub proof fn lemma_filter_sound(
    ws: Seq<String>,
    target: String,
    guesses: Seq<Seq<char>>,
    h: Seq<GuessResult>,
)
    requires
        is_word(target@),
        ws.contains(target),
        guesses.len() == h.len(),
        forall|k: int| 0 <= k < h.len() ==> (#[trigger] guesses[k]).len() == 5,
        forall|k: int| 0 <= k < h.len() ==> (#[trigger] h[k]).slots@ == feedback(guesses[k], target@),
    ensures
        surviving(ws, h).contains(target),
{
    assert forall|k: int| 0 <= k < h.len() implies #[trigger] satisfies(target@, h[k]) by {
        lemma_target_satisfies_feedback(guesses[k], target@, h[k]);
    }
    let p = |w: String| consistent(w@, h);
    let i = choose|i: int| 0 <= i < ws.len() && ws[i] == target;
    ws.lemma_filter_contains(p, i);
}

/// The word that a guess result spells out when every position is `Correct`.
pub open spec fn spelled(g: GuessResult) -> Seq<char> {
    Seq::new(5, |i: int| g.slot(i)->Correct_0)
}

/// After an all-`Correct` guess result, the only word left is the one it spells.
pub proof fn lemma_all_correct_pins_word(ws: Seq<String>, h: Seq<GuessResult>, g: GuessResult)
    requires
        all_words(ws),
        g.all_correct(),
        h.contains(g),
    ensures
        forall|k: int|
            0 <= k < surviving(ws, h).len() ==> (#[trigger] surviving(ws, h)[k])@ == spelled(g),
{
    let p = |w: String| consistent(w@, h);
    let s = surviving(ws, h);
    assert forall|k: int| 0 <= k < s.len() implies (#[trigger] s[k])@ == spelled(g) by {
        ws.lemma_filter_pred(p, k);
        ws.lemma_filter_contains_rev(p, s[k]);
        let j = choose|j: int| 0 <= j < h.len() && h[j] == g;
        assert(satisfies(s[k]@, h[j]));
        let m = choose|m: int| 0 <= m < ws.len() && ws[m] == s[k];
        assert(is_word(ws[m]@));
        assert forall|i: int| 0 <= i < 5 implies s[k]@[i] == spelled(g)[i] by {
            assert(slot_allows(s[k]@, i, g.slot(i)));
            assert(g.slot(i) is Correct);
        }
        assert(s[k]@ =~= spelled(g));
    }
}

/// A `Misplaced` letter rules out every word that has that letter at that
/// position, wherever else the word holds it.
pub proof fn lemma_misplaced_excludes_position(
    ws: Seq<String>,
    h: Seq<GuessResult>,
    g: GuessResult,
    i: int,
    x: char,
)
    requires
        0 <= i < 5,
        g.slot(i) == LetterConstraint::Misplaced(x),
        h.contains(g),
    ensures
        forall|w: Seq<char>| w[i] == x ==> !#[trigger] satisfies(w, g),
        forall|k: int| 0 <= k < surviving(ws, h).len() ==> (#[trigger] surviving(ws, h)[k])@[i] != x,
{
    assert forall|w: Seq<char>| w[i] == x implies !#[trigger] satisfies(w, g) by {
        assert(!slot_allows(w, i, g.slot(i)));
    }
    let p = |w: String| consistent(w@, h);
    let s = surviving(ws, h);
    assert forall|k: int| 0 <= k < s.len() implies (#[trigger] s[k])@[i] != x by {
        ws.lemma_filter_pred(p, k);
        let j = choose|j: int| 0 <= j < h.len() && h[j] == g;
        assert(satisfies(s[k]@, h[j]));
        assert(slot_allows(s[k]@, i, g.slot(i)));
    }
}

} // verus!

verus! {

/// Every word that survives is a word of the list, so it is still a candidate word.
pub proof fn lemma_surviving_words(ws: Seq<String>, h: Seq<GuessResult>)
    requires
        all_words(ws),
    ensures
        all_words(surviving(ws, h)),
        surviving(ws, h).len() <= ws.len(),
{
    let p = |w: String| consistent(w@, h);
    let s = surviving(ws, h);
    assert forall|k: int| 0 <= k < s.len() implies is_word(#[trigger] s[k]@) by {
        assert(s.contains(s[k]));
        ws.lemma_filter_contains_rev(p, s[k]);
    }
    ws.lemma_filter_len(p);
}

} // verus!
