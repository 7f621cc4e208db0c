//! Turning lines typed by a player into feedback.
use vstd::prelude::*;
use crate::constraint::{GuessResult, LetterConstraint, WORD_LEN, is_letter};
use crate::text::push_char;

verus! {

/// What a line typed at a prompt asks for.
#[derive(Clone, Debug)]
pub enum LineInput {
    /// The player typed `exit`.
    Exit,
    /// A line of feedback: empty, or exactly as long as the prompt asked.
    Entry(String),
}

/// Why a typed line was refused.
#[derive(Clone, Copy, Debug, PartialEq, Eq, Structural)]
pub enum LineError {
    /// A character other than a lowercase letter or `-`.
    InvalidCharacter,
    /// More characters than the prompt asked for.
    TooLong,
}

/// A character allowed in a feedback line.
pub open spec fn is_entry_char(c: char) -> bool {
    is_letter(c) || c == '-'
}

/// `s` followed by dashes up to length `n`.
pub open spec fn padded(s: Seq<char>, n: int) -> Seq<char> {
    s + Seq::new((n - s.len()) as nat, |i: int| '-')
}

/// The word `exit`.
pub open spec fn exit_word() -> Seq<char> {
    seq!['e', 'x', 'i', 't']
}

/// Reads a typed (already trimmed) line: `exit` ends the session; otherwise
/// only lowercase letters and `-` are allowed, an empty line stays empty, and
/// a shorter line is padded with `-` to `expected_length`.
pub fn check_line(line: &String, expected_length: usize) -> (r: Result<LineInput, LineError>)
    ensures
        line@ == exit_word() ==> r matches Ok(LineInput::Exit),
        line@ != exit_word() ==> match r {
            Ok(LineInput::Exit) => false,
            Ok(LineInput::Entry(s)) => {
                &&& forall|i: int| 0 <= i < line@.len() ==> is_entry_char(#[trigger] line@[i])
                &&& line@.len() <= expected_length
                &&& s@ == if line@.len() == 0 {
                    line@
                } else {
                    padded(line@, expected_length as int)
                }
            },
            Err(LineError::InvalidCharacter) => exists|i: int|
                0 <= i < line@.len() && !is_entry_char(#[trigger] line@[i]),
            Err(LineError::TooLong) => {
                &&& forall|i: int| 0 <= i < line@.len() ==> is_entry_char(#[trigger] line@[i])
                &&& line@.len() > expected_length
            },
        },
{
    let exit = String::from_str("exit");
    proof {
        reveal_strlit("exit");
        assert(exit@ =~= exit_word());
    }
    if *line == exit {
        return Ok(LineInput::Exit);
    }
    let s = line.as_str();
    let n = s.unicode_len();
    let mut k: usize = 0;
    while k < n
        invariant
            s@ == line@,
            n == line@.len(),
            k <= n,
            forall|i: int| 0 <= i < k ==> is_entry_char(#[trigger] line@[i]),
        decreases n - k,
    {
        let c = s.get_char(k);
        if !(('a' <= c && c <= 'z') || c == '-') {
            return Err(LineError::InvalidCharacter);
        }
        k = k + 1;
    }
    if n > expected_length {
        return Err(LineError::TooLong);
    }
    let mut out = line.clone();
    if n == 0 {
        return Ok(LineInput::Entry(out));
    }
    let mut m: usize = n;
    while m < expected_length
        invariant
            n <= m <= expected_length,
            out@ == padded(line@, m as int),
            line@.len() == n,
        decreases expected_length - m,
    {
        push_char(&mut out, '-');
        proof {
            assert(out@ =~= padded(line@, m + 1));
        }
        m = m + 1;
    }
    proof {
        assert(padded(line@, n as int) =~= line@);
    }
    Ok(LineInput::Entry(out))
}

/// The kind of feedback that a prompt collects.
#[derive(Clone, Copy, Debug, PartialEq, Eq, Structural)]
pub enum FeedbackKind {
    Misplaced,
    Absent,
    Correct,
}

/// The constraint of kind `k` on letter `c`.
pub open spec fn constraint_of(k: FeedbackKind, c: char) -> LetterConstraint {
    match k {
        FeedbackKind::Misplaced => LetterConstraint::Misplaced(c),
        FeedbackKind::Absent => LetterConstraint::Absent(c),
        FeedbackKind::Correct => LetterConstraint::Correct(c),
    }
}

/// The constraint of kind `kind` on letter `c`.
pub fn make_constraint(kind: FeedbackKind, c: char) -> (r: LetterConstraint)
    ensures
        r == constraint_of(kind, c),
{
    match kind {
        FeedbackKind::Misplaced => LetterConstraint::Misplaced(c),
        FeedbackKind::Absent => LetterConstraint::Absent(c),
        FeedbackKind::Correct => LetterConstraint::Correct(c),
    }
}

/// Position `i` after a line of kind `kind` was entered over `slots`.
pub open spec fn entered_slot(
    slots: Seq<LetterConstraint>,
    kind: FeedbackKind,
    line: Seq<char>,
    last_guess: Seq<char>,
    i: int,
) -> LetterConstraint {
    if line.len() == 0 {
        if slots[i] is Unset {
            constraint_of(kind, last_guess[i])
        } else {
            slots[i]
        }
    } else if line[i] != '-' {
        constraint_of(kind, line[i])
    } else {
        slots[i]
    }
}

/// Enters one line of feedback of kind `kind`: an empty line gives every
/// unset position that kind for the letter of the last guess; otherwise each
/// position whose character is not `-` gets that kind for that character.
pub fn apply_feedback_line(
    slots: &mut [LetterConstraint; 5],
    kind: FeedbackKind,
    line: &String,
    last_guess: &String,
)
    requires
        line@.len() == 0 || line@.len() == 5,
        last_guess@.len() == 5,
    ensures
        forall|i: int|
            0 <= i < 5 ==> #[trigger] final(slots)@[i] == entered_slot(
                old(slots)@,
                kind,
                line@,
                last_guess@,
                i,
            ),
{
    let ghost before = slots@;
    let l = line.as_str();
    let g = last_guess.as_str();
    let empty = l.unicode_len() == 0;
    let mut i: usize = 0;
    while i < WORD_LEN
        invariant
            l@ == line@,
            g@ == last_guess@,
            empty == (line@.len() == 0),
            line@.len() == 0 || line@.len() == 5,
            last_guess@.len() == 5,
            i <= 5,
            forall|j: int|
                0 <= j < i ==> #[trigger] slots@[j] == entered_slot(before, kind, line@, last_guess@, j),
            forall|j: int| i <= j < 5 ==> #[trigger] slots@[j] == before[j],
        decreases 5 - i,
    {
        if empty {
            if let LetterConstraint::Unset = slots[i] {
                slots[i] = make_constraint(kind, g.get_char(i));
            }
        } else {
            let c = l.get_char(i);
            if c != '-' {
                slots[i] = make_constraint(kind, c);
            }
        }
        i = i + 1;
    }
}

/// Whether every position has been given a constraint.
pub fn is_complete(slots: &[LetterConstraint; 5]) -> (r: bool)
    ensures
        r == forall|i: int| 0 <= i < 5 ==> !(#[trigger] slots@[i] is Unset),
{
    let mut i: usize = 0;
    while i < WORD_LEN
        invariant
            i <= 5,
            forall|j: int| 0 <= j < i ==> !(#[trigger] slots@[j] is Unset),
        decreases 5 - i,
    {
        if let LetterConstraint::Unset = slots[i] {
            return false;
        }
        i = i + 1;
    }
    true
}

/// Closes feedback entry: every position still unset is taken as `Correct`
/// for the letter of the last guess.
pub fn finish_feedback(slots: &[LetterConstraint; 5], last_guess: &String) -> (r: GuessResult)
    requires
        last_guess@.len() == 5,
    ensures
        r.committed(),
        forall|i: int|
            0 <= i < 5 ==> #[trigger] r.slot(i) == entered_slot(
                slots@,
                FeedbackKind::Correct,
                Seq::empty(),
                last_guess@,
                i,
            ),
{
    let mut out = *slots;
    let empty = String::new();
    apply_feedback_line(&mut out, FeedbackKind::Correct, &empty, last_guess);
    let r = GuessResult { slots: out };
    assert forall|i: int| 0 <= i < 5 implies !(#[trigger] r.slot(i) is Unset) by {
        assert(r.slot(i) == entered_slot(slots@, FeedbackKind::Correct, empty@, last_guess@, i));
    }
    r
}

/// Why a guess in the game was refused.
#[derive(Clone, Copy, Debug, PartialEq, Eq, Structural)]
pub enum ProcessInputError {
    /// The guess is not as long as the secret word.
    InvalidLength,
}

/// Checks a guess in the game: refused when its length differs from the
/// secret word's, else true exactly when it is the secret word.
pub fn process_input(word: &String, input: &String) -> (r: Result<bool, ProcessInputError>)
    ensures
        input@.len() != word@.len() <==> r == Err::<bool, ProcessInputError>(
            ProcessInputError::InvalidLength,
        ),
        input@.len() == word@.len() ==> r == Ok::<bool, ProcessInputError>(input@ == word@),
{
    if input.as_str().unicode_len() != word.as_str().unicode_len() {
        return Err(ProcessInputError::InvalidLength);
    }
    Ok(*input == *word)
}

} // verus!
