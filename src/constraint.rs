//! Feedback for one guess, and what it says about a candidate word.
use vstd::prelude::*;

verus! {

/// The number of letters in every word of the puzzle.
pub const WORD_LEN: usize = 5;

/// What the puzzle reported for one letter of a guess.
#[derive(Clone, Copy, Debug, PartialEq, Eq, Structural)]
pub enum LetterConstraint {
    /// The letter is in the target, but not at this position.
    Misplaced(char),
    /// The letter is in the target at this position.
    Correct(char),
    /// The letter is not in the target.
    Absent(char),
    /// Not yet known; only used while feedback is being entered.
    Unset,
}

/// The feedback for one guess: one constraint per position.
#[derive(Clone, Copy, Debug)]
pub struct GuessResult {
    pub slots: [LetterConstraint; 5],
}

/// A lowercase ASCII letter.
pub open spec fn is_letter(c: char) -> bool {
    'a' <= c && c <= 'z'
}

/// A candidate word: exactly five lowercase letters.
pub open spec fn is_word(w: Seq<char>) -> bool {
    &&& w.len() == 5
    &&& forall|i: int| 0 <= i < 5 ==> is_letter(#[trigger] w[i])
}

/// Every entry of a word list is a candidate word.
pub open spec fn all_words(ws: Seq<String>) -> bool {
    forall|k: int| 0 <= k < ws.len() ==> is_word(#[trigger] ws[k]@)
}

impl GuessResult {
    /// The constraint at position `i`.
    pub open spec fn slot(self, i: int) -> LetterConstraint {
        self.slots@[i]
    }

    /// Fully entered feedback: no position is left unset.
    pub open spec fn committed(self) -> bool {
        forall|i: int| 0 <= i < 5 ==> !(#[trigger] self.slot(i) is Unset)
    }

    /// Every position is `Correct`.
    pub open spec fn all_correct(self) -> bool {
        forall|i: int| 0 <= i < 5 ==> #[trigger] self.slot(i) is Correct
    }
}

/// A history in which every guess result is fully entered.
pub open spec fn committed_history(h: Seq<GuessResult>) -> bool {
    forall|k: int| 0 <= k < h.len() ==> (#[trigger] h[k]).committed()
}

/// Whether word `w` agrees with constraint `c` at position `i`.
pub open spec fn slot_allows(w: Seq<char>, i: int, c: LetterConstraint) -> bool {
    match c {
        LetterConstraint::Correct(t) => w[i] == t,
        LetterConstraint::Misplaced(t) => w.contains(t) && w[i] != t,
        LetterConstraint::Absent(t) => !w.contains(t),
        LetterConstraint::Unset => false,
    }
}

/// Whether word `w` agrees with every position of one guess result.
pub open spec fn satisfies(w: Seq<char>, g: GuessResult) -> bool {
    forall|i: int| 0 <= i < 5 ==> #[trigger] slot_allows(w, i, g.slot(i))
}

/// Whether word `w` agrees with every guess result of a history.
pub open spec fn consistent(w: Seq<char>, h: Seq<GuessResult>) -> bool {
    forall|k: int| 0 <= k < h.len() ==> #[trigger] satisfies(w, h[k])
}

/// What the puzzle reports for position `i` of `guess` when the secret word is `target`.
pub open spec fn classify(guess: Seq<char>, target: Seq<char>, i: int) -> LetterConstraint {
    let c = guess[i];
    if target.contains(c) {
        if target[i] == c {
            LetterConstraint::Correct(c)
        } else {
            LetterConstraint::Misplaced(c)
        }
    } else {
        LetterConstraint::Absent(c)
    }
}

/// The feedback for a whole guess against a secret word.
pub open spec fn feedback(guess: Seq<char>, target: Seq<char>) -> Seq<LetterConstraint> {
    Seq::new(5, |i: int| classify(guess, target, i))
}

/// Whether `w` holds the character `c`.
pub fn word_contains(w: &String, c: char) -> (r: bool)
    ensures
        r == w@.contains(c),
{
    let s = w.as_str();
    let n = s.unicode_len();
    let mut k: usize = 0;
    while k < n
        invariant
            n == w@.len(),
            s@ == w@,
            k <= n,
            forall|j: int| 0 <= j < k ==> w@[j] != c,
        decreases n - k,
    {
        if s.get_char(k) == c {
            return true;
        }
        k = k + 1;
    }
    false
}

/// Whether `w` is a candidate word: exactly five lowercase letters.
pub fn is_valid_word(w: &String) -> (r: bool)
    ensures
        r == is_word(w@),
{
    let s = w.as_str();
    if s.unicode_len() != WORD_LEN {
        return false;
    }
    let mut k: usize = 0;
    while k < WORD_LEN
        invariant
            s@ == w@,
            w@.len() == 5,
            k <= 5,
            forall|j: int| 0 <= j < k ==> is_letter(#[trigger] w@[j]),
        decreases 5 - k,
    {
        let c = s.get_char(k);
        if !('a' <= c && c <= 'z') {
            return false;
        }
        k = k + 1;
    }
    true
}

/// The feedback that the puzzle gives for `guess` when the secret word is `word`.
pub fn calculate_guess_result(word: &String, guess: &String) -> (r: GuessResult)
    requires
        word@.len() == 5,
        guess@.len() == 5,
    ensures
        r.slots@ == feedback(guess@, word@),
        r.committed(),
{
    let mut slots = [LetterConstraint::Unset; 5];
    let g = guess.as_str();
    let t = word.as_str();
    let mut i: usize = 0;
    while i < WORD_LEN
        invariant
            g@ == guess@,
            t@ == word@,
            word@.len() == 5,
            guess@.len() == 5,
            i <= 5,
            slots@.len() == 5,
            forall|j: int| 0 <= j < i ==> slots@[j] == classify(guess@, word@, j),
        decreases 5 - i,
    {
        let c = g.get_char(i);
        if word_contains(word, c) {
            if t.get_char(i) == c {
                slots[i] = LetterConstraint::Correct(c);
            } else {
                slots[i] = LetterConstraint::Misplaced(c);
            }
        } else {
            slots[i] = LetterConstraint::Absent(c);
        }
        i = i + 1;
    }
    let r = GuessResult { slots };
    assert(r.slots@ =~= feedback(guess@, word@));
    r
}

/// Whether `w` agrees with every position of `g`.
pub fn word_satisfies(w: &String, g: &GuessResult) -> (r: bool)
    requires
        w@.len() == 5,
    ensures
        r == satisfies(w@, *g),
{
    let s = w.as_str();
    let mut i: usize = 0;
    while i < WORD_LEN
        invariant
            s@ == w@,
            w@.len() == 5,
            i <= 5,
            forall|j: int| 0 <= j < i ==> #[trigger] slot_allows(w@, j, g.slot(j)),
        decreases 5 - i,
    {
        let ok = match g.slots[i] {
            LetterConstraint::Correct(t) => s.get_char(i) == t,
            LetterConstraint::Misplaced(t) => word_contains(w, t) && s.get_char(i) != t,
            LetterConstraint::Absent(t) => !word_contains(w, t),
            LetterConstraint::Unset => false,
        };
        if !ok {
            assert(!slot_allows(w@, i as int, g.slot(i as int)));
            return false;
        }
        i = i + 1;
    }
    true
}

/// Whether `w` agrees with every guess result of `history`.
pub fn word_consistent(w: &String, history: &Vec<GuessResult>) -> (r: bool)
    requires
        w@.len() == 5,
    ensures
        r == consistent(w@, history@),
{
    let mut k: usize = 0;
    while k < history.len()
        invariant
            w@.len() == 5,
            k <= history@.len(),
            forall|j: int| 0 <= j < k ==> #[trigger] satisfies(w@, history@[j]),
        decreases history@.len() - k,
    {
        if !word_satisfies(w, &history[k]) {
            return false;
        }
        k = k + 1;
    }
    true
}

} // verus!
